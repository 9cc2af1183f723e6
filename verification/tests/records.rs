use corewar::leaderboard::{
    pair_key, unique_players, HeadToHead, MatchHistory, MatchOutcome, MatchRecords, PlayerTally,
};

fn win(winner: &str, loser: &str) -> MatchOutcome {
    MatchOutcome::Win {
        winner: winner.to_string(),
        loser: loser.to_string(),
    }
}

fn draw(players: &[&str]) -> MatchOutcome {
    MatchOutcome::Draw {
        players: players.iter().map(|p| p.to_string()).collect(),
    }
}

#[test]
fn head_to_head_stats_are_symmetric() {
    let mut records = MatchRecords::new();
    assert!(records.record_outcome(win("alpha", "beta")));
    assert!(records.record_outcome(win("alpha", "beta")));
    assert!(records.record_outcome(win("beta", "alpha")));
    assert!(records.record_outcome(draw(&["alpha", "beta"])));

    assert_eq!(
        records.head_to_head("alpha", "beta"),
        HeadToHead {
            wins_a: 2,
            wins_b: 1,
            draws: 1,
        }
    );
    assert_eq!(
        records.head_to_head("beta", "alpha"),
        HeadToHead {
            wins_a: 1,
            wins_b: 2,
            draws: 1,
        }
    );
}

#[test]
fn recent_match_history_filters_by_player() {
    let mut records = MatchRecords::new();
    assert!(records.record_outcome(win("alpha", "beta")));
    assert!(records.record_outcome(draw(&["alpha", "gamma"])));
    assert!(records.record_outcome(win("gamma", "beta")));

    let recent = records
        .history_entries()
        .recent_matches_for_player("alpha", 2);
    assert_eq!(recent.len(), 2);
    assert!(recent
        .iter()
        .all(|entry| entry.outcome.involves_player("alpha")));
    assert_eq!(recent[0].outcome, draw(&["alpha", "gamma"]));
    assert_eq!(recent[1].outcome, win("alpha", "beta"));
}

#[test]
fn tallies_count_wins_losses_and_draws() {
    let mut records = MatchRecords::new();
    assert!(records.record_outcome(win("alpha", "beta")));
    assert!(records.record_outcome(draw(&["alpha", "beta", "gamma", "alpha"])));
    let alpha = records.tally_of("alpha").unwrap();
    assert_eq!((alpha.wins, alpha.losses, alpha.draws), (1, 0, 2));
    let beta = records.tally_of("beta").unwrap();
    assert_eq!((beta.wins, beta.losses, beta.draws), (0, 1, 2));
    let gamma = records.tally_of("gamma").unwrap();
    assert_eq!((gamma.wins, gamma.losses, gamma.draws), (0, 0, 2));
    assert!(records.tally_of("delta").is_none());
    assert_eq!(records.tallies().len(), 3);
    assert_eq!(records.head_to_head("beta", "gamma").draws, 1);
    assert_eq!(records.history_entries().matches().len(), 2);
}

#[test]
fn lone_draw_player_is_known_without_draws() {
    let mut records = MatchRecords::new();
    assert!(records.record_outcome(draw(&["solo", "solo"])));
    let solo = records.tally_of("solo").unwrap();
    assert_eq!((solo.wins, solo.losses, solo.draws), (0, 0, 0));
}

#[test]
fn pair_key_orders_names() {
    assert_eq!(pair_key("alpha", "beta"), ("alpha\0beta".to_string(), true));
    assert_eq!(pair_key("beta", "alpha"), ("alpha\0beta".to_string(), false));
    assert_eq!(pair_key("same", "same"), ("same\0same".to_string(), true));
}

#[test]
fn unique_players_keeps_first_occurrences() {
    let players: Vec<String> = ["b", "a", "b", "c", "a"]
        .iter()
        .map(|p| p.to_string())
        .collect();
    assert_eq!(unique_players(&players), vec!["b", "a", "c"]);
}

#[test]
fn outcomes_know_their_players() {
    let outcome = win("alpha", "beta");
    assert!(outcome.involves_player("alpha"));
    assert!(outcome.involves_player("beta"));
    assert!(!outcome.involves_player("gamma"));
    assert_eq!(outcome.participant_names(), vec!["alpha", "beta"]);
    assert_eq!(
        draw(&["x", "y", "x"]).participant_names(),
        vec!["x".to_string(), "y".to_string()]
    );
}

#[test]
fn history_records_in_order() {
    let mut history = MatchHistory::new();
    history.record_at(win("a", "b"), 10);
    history.record(win("b", "a"));
    assert_eq!(history.matches().len(), 2);
    assert_eq!(history.matches()[0].timestamp_unix_secs, 10);
    assert_eq!(history.recent_matches_for_player("a", 5).len(), 2);
    assert_eq!(history.recent_matches_for_player("c", 5).len(), 0);
    assert_eq!(history.recent_matches_for_player("a", 0).len(), 0);
}

#[test]
fn full_counts_refuse_an_outcome_and_keep_the_records() {
    let tallies = vec![
        PlayerTally { name: "alpha".to_string(), wins: u32::MAX, losses: 0, draws: 0 },
        PlayerTally { name: "beta".to_string(), wins: 0, losses: 3, draws: 0 },
    ];
    let mut records = MatchRecords::from_parts(tallies, Vec::new(), MatchHistory::new());
    assert!(!records.has_room_for(&win("alpha", "beta")));
    assert!(!records.record_outcome(win("alpha", "beta")));
    assert_eq!(records.tally_of("beta").unwrap().losses, 3);
    assert!(records.history_entries().matches().is_empty());

    assert!(records.has_room_for(&win("beta", "alpha")));
    assert!(records.record_outcome(win("beta", "alpha")));
    assert_eq!(records.tally_of("beta").unwrap().wins, 1);
    assert_eq!(records.tally_of("alpha").unwrap().losses, 1);
}

#[test]
fn outcomes_are_recorded_in_order_until_one_overflows() {
    let tallies = vec![PlayerTally { name: "full".to_string(), wins: u32::MAX, losses: 0, draws: 0 }];
    let mut records = MatchRecords::from_parts(tallies, Vec::new(), MatchHistory::new());
    let outcomes = vec![
        win("alpha", "beta"),
        draw(&["beta", "gamma"]),
        win("full", "alpha"),
        win("alpha", "gamma"),
    ];
    assert_eq!(records.record_outcomes(&outcomes), 2);
    assert_eq!(records.history_entries().matches().len(), 2);
    assert_eq!(records.history_entries().matches()[1].outcome, outcomes[1]);
    let beta = records.tally_of("beta").unwrap();
    assert_eq!((beta.wins, beta.losses, beta.draws), (0, 1, 1));
    assert_eq!(records.tally_of("alpha").unwrap().losses, 0);
    assert!(records.tally_of("gamma").is_some());

    let mut fresh = MatchRecords::new();
    assert_eq!(fresh.record_outcomes(&outcomes[..2]), 2);
    assert_eq!(fresh.record_outcomes(&[]), 0);
    assert_eq!(fresh.head_to_head("alpha", "beta"), HeadToHead { wins_a: 1, wins_b: 0, draws: 0 });
}

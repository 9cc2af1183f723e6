use corewar::battle::{BattleStats, Match};
use corewar::rounds::{group_by_round, next_elimination_round, number_matches};
use corewar::standings::{apply_match_report, initialise_standings, standing_for};

fn scheduled(id: &str, round: usize, warriors: &[&str]) -> Match {
    Match {
        id: id.to_string(),
        round,
        warrior_ids: warriors.iter().map(|w| w.to_string()).collect(),
    }
}

fn names(list: &[&str]) -> Vec<String> {
    list.iter().map(|s| s.to_string()).collect()
}

#[test]
fn matches_group_by_ascending_round() {
    let matches = vec![
        scheduled("a", 2, &["x", "y"]),
        scheduled("b", 1, &["x", "z"]),
        scheduled("c", 2, &["z", "w"]),
        scheduled("d", 3, &["y", "w"]),
        scheduled("e", 1, &["y", "w"]),
    ];
    let groups = group_by_round(&matches);
    let ids: Vec<Vec<&str>> =
        groups.iter().map(|g| g.iter().map(|m| m.id.as_str()).collect()).collect();
    assert_eq!(ids, vec![vec!["b", "e"], vec!["a", "c"], vec!["d"]]);
    assert!(group_by_round(&[]).is_empty());
}

#[test]
fn matches_are_named_after_their_round() {
    let renamed = number_matches(
        vec![scheduled("tmp", 0, &["a", "b"]), scheduled("tmp", 0, &["c", "d"])],
        "swiss",
        3,
    );
    assert_eq!(renamed[0].id, "swiss-r3-m1");
    assert_eq!(renamed[1].id, "swiss-r3-m2");
    assert!(renamed.iter().all(|m| m.round == 3));
    assert_eq!(renamed[1].warrior_ids, names(&["c", "d"]));
    let bracket = number_matches(vec![scheduled("x", 1, &["a"])], "elimination", 12);
    assert_eq!(bracket[0].id, "elimination-r12-m1");
}

#[test]
fn odd_bracket_gives_the_last_warrior_a_bye() {
    let next = next_elimination_round(
        &names(&["a", "b", "c"]),
        vec![Some("b".to_string())],
    );
    assert_eq!(next, names(&["c", "b"]));
    let next = next_elimination_round(
        &names(&["a", "b", "c", "d"]),
        vec![Some("d".to_string()), None, Some("a".to_string())],
    );
    assert_eq!(next, names(&["d", "a"]));
}

#[test]
fn match_reports_add_to_standings_by_slot() {
    let mut standings = initialise_standings(&names(&["alpha", "beta", "gamma"]));
    let stats = vec![
        BattleStats { warrior_id: 2, wins: 1, losses: 0, draws: 0, score: 3, processes_created: 4, instructions_executed: 10 },
        BattleStats { warrior_id: 1, wins: 0, losses: 1, draws: 0, score: 0, processes_created: 2, instructions_executed: 9 },
    ];
    apply_match_report(&mut standings, &scheduled("m", 1, &["alpha", "beta", "gamma"]), &stats);
    let alpha = standing_for(&standings, &"alpha".to_string());
    assert_eq!((alpha.wins, alpha.losses, alpha.score, alpha.processes_created), (0, 1, 0, 2));
    let beta = standing_for(&standings, &"beta".to_string());
    assert_eq!((beta.wins, beta.score, beta.instructions_executed), (1, 3, 10));
    let gamma = standing_for(&standings, &"gamma".to_string());
    assert_eq!((gamma.wins, gamma.losses, gamma.score), (0, 0, 0));

    apply_match_report(&mut standings, &scheduled("n", 2, &["beta", "alpha"]), &stats);
    let beta = standing_for(&standings, &"beta".to_string());
    assert_eq!((beta.wins, beta.losses, beta.score), (1, 1, 3));
    let alpha = standing_for(&standings, &"alpha".to_string());
    assert_eq!((alpha.wins, alpha.losses, alpha.score), (1, 1, 3));
}

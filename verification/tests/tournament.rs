use corewar::battle::{BattleResult, BattleStats, Match, ScheduleStrategy};
use corewar::protocol::BattleResultMsg;
use corewar::tournament::{BattleRunReport, TournamentAction, TournamentResult, TournamentState};

fn names(list: &[&str]) -> Vec<String> {
    list.iter().map(|s| s.to_string()).collect()
}

fn scheduled(id: &str, round: usize, warriors: &[&str]) -> Match {
    Match { id: id.to_string(), round, warrior_ids: names(warriors) }
}

/// Pairs neighbours in the order given: first with second, third with
/// fourth, and so on; an odd warrior out gets no match.
fn pair_neighbours(participants: &[String], round: usize) -> Vec<Match> {
    participants
        .chunks(2)
        .filter(|pair| pair.len() == 2)
        .map(|pair| Match {
            id: String::new(),
            round,
            warrior_ids: pair.to_vec(),
        })
        .collect()
}

/// The first warrior in name order wins, scoring one point.
fn alphabetical_winner(m: &Match) -> BattleRunReport {
    let winner: u32 = if m.warrior_ids[0] <= m.warrior_ids[1] { 1 } else { 2 };
    win_report(m, winner)
}

fn win_report(m: &Match, winner: u32) -> BattleRunReport {
    let stats = (1..=m.warrior_ids.len() as u32)
        .map(|id| BattleStats {
            warrior_id: id,
            wins: u64::from(id == winner),
            losses: u64::from(id != winner),
            score: u64::from(id == winner),
            ..BattleStats::default()
        })
        .collect();
    BattleRunReport {
        result: BattleResult::Win { winner_id: winner },
        result_message: BattleResultMsg::Win {
            winner: m.warrior_ids[(winner - 1) as usize].clone(),
        },
        stats,
    }
}

/// Drives a tournament to its end; returns the result, the pairings asked
/// for (round and participants) and how many battles were run.
fn drive(
    strategy: ScheduleStrategy,
    warriors: &[&str],
    pair: impl Fn(&[String], usize) -> Vec<Match>,
    run: impl Fn(&Match) -> BattleRunReport,
) -> (TournamentResult, Vec<(usize, Vec<String>)>, usize) {
    let (mut state, mut action) = TournamentState::start(strategy, &names(warriors));
    let mut pairings = Vec::new();
    let mut battles = 0;
    loop {
        match action {
            TournamentAction::Finish(result) => return (result, pairings, battles),
            TournamentAction::Pair { round, participants } => {
                let matches = pair(&participants, round);
                pairings.push((round, participants));
                let (s, a) = state.matches_scheduled(matches);
                state = s;
                action = a;
            }
            TournamentAction::Play(matches) => {
                let completed: Vec<(Match, BattleRunReport)> = matches
                    .into_iter()
                    .map(|m| {
                        let report = run(&m);
                        (m, report)
                    })
                    .collect();
                battles += completed.len();
                let (s, a) = state.round_completed(completed).expect("counts fit");
                state = s;
                action = a;
            }
        }
    }
}

#[test]
fn tournament_completes_with_mock_battles() {
    let schedule = |_: &[String], _: usize| {
        vec![
            scheduled("rr-1", 1, &["alpha", "beta"]),
            scheduled("rr-2", 2, &["alpha", "gamma"]),
            scheduled("rr-3", 3, &["beta", "gamma"]),
        ]
    };
    let (result, _, battles) =
        drive(ScheduleStrategy::RoundRobin, &["alpha", "beta", "gamma"], schedule, alphabetical_winner);
    assert_eq!(battles, 3);
    assert_eq!(result.matches_played, 3);
    assert_eq!(result.standings[0].0, "alpha");
    assert_eq!(result.standings[0].1.wins, 2);
    assert_eq!(result.standings[2].0, "gamma");
}

#[test]
fn round_robin_plays_its_groups_in_round_order() {
    let (state, action) = TournamentState::start(ScheduleStrategy::RoundRobin, &names(&["a", "b", "c"]));
    assert!(matches!(action, TournamentAction::Pair { round: 1, .. }));
    let (state, action) = state.matches_scheduled(vec![
        scheduled("late", 2, &["a", "c"]),
        scheduled("early", 1, &["a", "b"]),
        scheduled("late-2", 2, &["b", "c"]),
    ]);
    let first = match action {
        TournamentAction::Play(g) => g,
        _ => panic!("expected a group to play"),
    };
    assert_eq!(first.iter().map(|m| m.id.as_str()).collect::<Vec<_>>(), vec!["early"]);
    let done: Vec<_> = first.into_iter().map(|m| {
        let r = alphabetical_winner(&m);
        (m, r)
    }).collect();
    let (state, action) = state.round_completed(done).unwrap();
    let second = match action {
        TournamentAction::Play(g) => g,
        _ => panic!("expected the second group"),
    };
    assert_eq!(second.iter().map(|m| m.id.as_str()).collect::<Vec<_>>(), vec!["late", "late-2"]);
    let done: Vec<_> = second.into_iter().map(|m| {
        let r = alphabetical_winner(&m);
        (m, r)
    }).collect();
    let (state, action) = state.round_completed(done).unwrap();
    assert_eq!(state.matches_played, 3);
    match action {
        TournamentAction::Finish(result) => {
            assert_eq!(result.matches_played, 3);
            let order: Vec<&str> = result.standings.iter().map(|(n, _)| n.as_str()).collect();
            assert_eq!(order, vec!["a", "b", "c"]);
        }
        _ => panic!("expected the end"),
    }
}

#[test]
fn round_robin_without_matches_finishes() {
    let (state, _) = TournamentState::start(ScheduleStrategy::RoundRobin, &names(&["solo"]));
    let (_, action) = state.matches_scheduled(Vec::new());
    match action {
        TournamentAction::Finish(result) => {
            assert_eq!(result.matches_played, 0);
            assert_eq!(result.standings.len(), 1);
            assert_eq!(result.standings[0].0, "solo");
        }
        _ => panic!("expected the end"),
    }
}

#[test]
fn swiss_plays_exactly_its_rounds() {
    let (result, pairings, battles) = drive(
        ScheduleStrategy::Swiss { rounds: 3 },
        &["d", "c", "b", "a"],
        pair_neighbours,
        alphabetical_winner,
    );
    let rounds: Vec<usize> = pairings.iter().map(|(r, _)| *r).collect();
    assert_eq!(rounds, vec![1, 2, 3]);
    assert_eq!(battles, 6);
    assert_eq!(result.matches_played, 6);
    // Seeds first: nobody has played yet.
    assert_eq!(pairings[0].1, names(&["d", "c", "b", "a"]));
    // Then the winners of round one ("c" and "a") lead, the better seed first.
    assert_eq!(pairings[1].1, names(&["c", "a", "d", "b"]));
}

#[test]
fn swiss_matches_are_named_after_the_round() {
    let (state, _) = TournamentState::start(ScheduleStrategy::Swiss { rounds: 2 }, &names(&["x", "y"]));
    let (_, action) = state.matches_scheduled(vec![scheduled("", 7, &["x", "y"])]);
    match action {
        TournamentAction::Play(g) => {
            assert_eq!(g[0].id, "swiss-r1-m1");
            assert_eq!(g[0].round, 1);
        }
        _ => panic!("expected matches to play"),
    }
}

#[test]
fn swiss_of_no_rounds_finishes_at_once() {
    let (state, action) = TournamentState::start(ScheduleStrategy::Swiss { rounds: 0 }, &names(&["x", "y"]));
    assert_eq!(state.matches_played, 0);
    match action {
        TournamentAction::Finish(result) => {
            assert_eq!(result.matches_played, 0);
            assert_eq!(result.standings.len(), 2);
        }
        _ => panic!("expected the end"),
    }
}

#[test]
fn elimination_gives_the_odd_warrior_out_a_bye() {
    let (result, pairings, battles) = drive(
        ScheduleStrategy::Elimination,
        &["b", "a", "c"],
        pair_neighbours,
        alphabetical_winner,
    );
    assert_eq!(pairings.len(), 2);
    assert_eq!(pairings[0], (1, names(&["b", "a", "c"])));
    // "c" sat out round one; "a" beat "b".
    assert_eq!(pairings[1], (2, names(&["c", "a"])));
    assert_eq!(battles, 2);
    assert_eq!(result.matches_played, 2);
    assert_eq!(result.standings[0].0, "a");
    assert_eq!(result.standings[0].1.wins, 2);
}

#[test]
fn elimination_matches_are_named_after_the_round() {
    let (state, _) = TournamentState::start(ScheduleStrategy::Elimination, &names(&["x", "y"]));
    let (_, action) =
        state.matches_scheduled(vec![scheduled("", 1, &["x", "y"]), scheduled("", 1, &["y", "x"])]);
    match action {
        TournamentAction::Play(g) => {
            assert_eq!(g[0].id, "elimination-r1-m1");
            assert_eq!(g[1].id, "elimination-r1-m2");
        }
        _ => panic!("expected matches to play"),
    }
}

#[test]
fn elimination_draw_advances_the_first_named_survivor() {
    let (state, _) = TournamentState::start(ScheduleStrategy::Elimination, &names(&["p", "q", "r", "s"]));
    let (state, action) = state.matches_scheduled(vec![
        scheduled("", 1, &["p", "q"]),
        scheduled("", 1, &["r", "s"]),
    ]);
    let matches = match action {
        TournamentAction::Play(g) => g,
        _ => panic!("expected matches to play"),
    };
    let completed = vec![
        (matches[0].clone(), draw_report(vec![2])),
        (matches[1].clone(), draw_report(vec![])),
    ];
    let (state, action) = state.round_completed(completed).unwrap();
    assert_eq!(state.round, 2);
    assert_eq!(state.participants, names(&["q", "r"]));
    match action {
        TournamentAction::Pair { round, participants } => {
            assert_eq!(round, 2);
            assert_eq!(participants, names(&["q", "r"]));
        }
        _ => panic!("expected the next pairing"),
    }
}

fn draw_report(survivors: Vec<u32>) -> BattleRunReport {
    BattleRunReport {
        result: BattleResult::Draw { survivor_ids: survivors },
        result_message: BattleResultMsg::Draw { survivors: Vec::new() },
        stats: vec![
            BattleStats { warrior_id: 1, draws: 1, ..BattleStats::default() },
            BattleStats { warrior_id: 2, draws: 1, ..BattleStats::default() },
        ],
    }
}

#[test]
fn elimination_of_one_warrior_finishes_at_once() {
    let (_, action) = TournamentState::start(ScheduleStrategy::Elimination, &names(&["only", "only"]));
    match action {
        TournamentAction::Finish(result) => {
            assert_eq!(result.matches_played, 0);
            assert_eq!(result.standings.len(), 1);
        }
        _ => panic!("expected the end"),
    }
}

#[test]
fn a_count_past_u64_is_refused() {
    let (state, _) = TournamentState::start(ScheduleStrategy::RoundRobin, &names(&["a", "b"]));
    let (state, action) = state.matches_scheduled(vec![
        scheduled("m1", 1, &["a", "b"]),
        scheduled("m2", 2, &["a", "b"]),
    ]);
    let first = match action {
        TournamentAction::Play(g) => g,
        _ => panic!("expected a group"),
    };
    let mut huge = win_report(&first[0], 1);
    huge.stats[0].score = u64::MAX;
    let (state, action) = state.round_completed(vec![(first[0].clone(), huge)]).unwrap();
    let second = match action {
        TournamentAction::Play(g) => g,
        _ => panic!("expected the second group"),
    };
    let one_more = win_report(&second[0], 1);
    assert!(state.round_completed(vec![(second[0].clone(), one_more)]).is_none());
}

#[test]
fn start_seeds_by_the_last_entry_of_a_name() {
    let (state, action) = TournamentState::start(
        ScheduleStrategy::Swiss { rounds: 1 },
        &names(&["x", "y", "x"]),
    );
    assert_eq!(state.standings.len(), 2);
    // "x" was last entered at position 2, after "y" at 1.
    match action {
        TournamentAction::Pair { round, participants } => {
            assert_eq!(round, 1);
            assert_eq!(participants, names(&["y", "x"]));
        }
        _ => panic!("expected a pairing"),
    }
}

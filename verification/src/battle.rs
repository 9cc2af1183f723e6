//! Battles as the orchestrator sees them: per-warrior statistics, how they
//! decide a battle, how a result is reported over the wire and to the
//! leaderboard, and who advances in an elimination bracket.
use vstd::prelude::*;

use crate::event::{spec_event_kind, spec_event_warrior, CoreEvent, CoreEventKind, TimedEvent};
use crate::leaderboard::{outcome_view, MatchOutcome, SpecOutcome};
use crate::protocol::{
    result_msg_view, strings_view, BattleResultMsg, CycleEvent, SpecResultMsg,
};
use crate::text::{decimal, with_number};

verus! {

/// Per-warrior statistics of a battle (over all its rounds).
#[derive(Debug, Clone, Copy, PartialEq, Eq, Structural)]
pub struct BattleStats {
    pub warrior_id: u32,
    pub wins: u64,
    pub losses: u64,
    pub draws: u64,
    pub score: u64,
    pub processes_created: u64,
    pub instructions_executed: u64,
}

pub open spec fn zero_stats() -> BattleStats {
    BattleStats {
        warrior_id: 0,
        wins: 0,
        losses: 0,
        draws: 0,
        score: 0,
        processes_created: 0,
        instructions_executed: 0,
    }
}

impl Default for BattleStats {
    fn default() -> (r: Self)
        ensures
            r == zero_stats(),
    {
        BattleStats {
            warrior_id: 0,
            wins: 0,
            losses: 0,
            draws: 0,
            score: 0,
            processes_created: 0,
            instructions_executed: 0,
        }
    }
}

/// How a battle ended: one winner, or a draw among the survivors.
#[derive(Debug, Clone, PartialEq, Eq)]
pub enum BattleResult {
    Win { winner_id: u32 },
    Draw { survivor_ids: Vec<u32> },
}

pub ghost enum SpecBattleResult {
    Win { winner_id: u32 },
    Draw { survivor_ids: Seq<u32> },
}

pub open spec fn battle_result_view(r: BattleResult) -> SpecBattleResult {
    match r {
        BattleResult::Win { winner_id } => SpecBattleResult::Win { winner_id },
        BattleResult::Draw { survivor_ids } => SpecBattleResult::Draw {
            survivor_ids: survivor_ids@,
        },
    }
}

// ---------------------------------------------------------------------------
// Deciding a battle
// ---------------------------------------------------------------------------

/// `a` ranks below `b`: lower score, then fewer wins, then fewer draws.
pub open spec fn key_lt(a: BattleStats, b: BattleStats) -> bool {
    a.score < b.score || (a.score == b.score && (a.wins < b.wins || (a.wins == b.wins && a.draws
        < b.draws)))
}

/// `a` and `b` rank the same.
pub open spec fn same_key(a: BattleStats, b: BattleStats) -> bool {
    a.score == b.score && a.wins == b.wins && a.draws == b.draws
}

/// The first entry of the highest rank.
pub open spec fn top(stats: Seq<BattleStats>) -> BattleStats
    decreases stats.len(),
{
    if stats.len() <= 1 {
        stats[0]
    } else {
        let t = top(stats.drop_last());
        if key_lt(t, stats.last()) {
            stats.last()
        } else {
            t
        }
    }
}

/// The warrior ids of the entries ranking the same as `k`, in order.
pub open spec fn ids_ranked_as(stats: Seq<BattleStats>, k: BattleStats) -> Seq<u32>
    decreases stats.len(),
{
    if stats.len() == 0 {
        Seq::empty()
    } else {
        let rest = ids_ranked_as(stats.drop_last(), k);
        if same_key(stats.last(), k) {
            rest.push(stats.last().warrior_id)
        } else {
            rest
        }
    }
}

/// The warriors of the highest rank, in order.
pub open spec fn leader_ids(stats: Seq<BattleStats>) -> Seq<u32> {
    if stats.len() == 0 {
        Seq::empty()
    } else {
        ids_ranked_as(stats, top(stats))
    }
}

/// A battle is won by the one warrior of the highest rank; with several
/// (or none) it is a draw among them.
pub open spec fn spec_aggregate(stats: Seq<BattleStats>) -> SpecBattleResult {
    let leaders = leader_ids(stats);
    if leaders.len() == 1 {
        SpecBattleResult::Win { winner_id: leaders[0] }
    } else {
        SpecBattleResult::Draw { survivor_ids: leaders }
    }
}

/// No entry ranks above `top`, and `top` is one of the entries.
pub proof fn lemma_top_is_highest(stats: Seq<BattleStats>)
    requires
        stats.len() > 0,
    ensures
        forall|i: int| 0 <= i < stats.len() ==> !key_lt(top(stats), #[trigger] stats[i]),
        exists|i: int| 0 <= i < stats.len() && stats[i] == top(stats),
    decreases stats.len(),
{
    if stats.len() == 1 {
        assert(stats[0] == top(stats));
    } else {
        let rest = stats.drop_last();
        lemma_top_is_highest(rest);
        assert forall|i: int| 0 <= i < stats.len() implies !key_lt(top(stats), #[trigger] stats[i]) by {
            if i < rest.len() {
                assert(stats[i] == rest[i]);
            }
        }
        if key_lt(top(rest), stats.last()) {
            assert(stats[stats.len() - 1] == top(stats));
        } else {
            let j = choose|j: int| 0 <= j < rest.len() && rest[j] == top(rest);
            assert(stats[j] == top(stats));
        }
    }
}

proof fn lemma_ids_ranked_as_none(stats: Seq<BattleStats>, k: BattleStats)
    requires
        forall|i: int| 0 <= i < stats.len() ==> !same_key(#[trigger] stats[i], k),
    ensures
        ids_ranked_as(stats, k) == Seq::<u32>::empty(),
    decreases stats.len(),
{
    if stats.len() > 0 {
        let rest = stats.drop_last();
        assert forall|i: int| 0 <= i < rest.len() implies !same_key(#[trigger] rest[i], k) by {
            assert(rest[i] == stats[i]);
        }
        lemma_ids_ranked_as_none(rest, k);
    }
}

proof fn lemma_ids_ranked_as_same(stats: Seq<BattleStats>, k1: BattleStats, k2: BattleStats)
    requires
        same_key(k1, k2),
    ensures
        ids_ranked_as(stats, k1) == ids_ranked_as(stats, k2),
    decreases stats.len(),
{
    if stats.len() > 0 {
        lemma_ids_ranked_as_same(stats.drop_last(), k1, k2);
    }
}

/// Decides a battle from its per-warrior statistics (see [`spec_aggregate`]).
pub fn aggregate_battle_result(stats: &[BattleStats]) -> (r: BattleResult)
    ensures
        battle_result_view(r) == spec_aggregate(stats@),
{
    let mut leaders: Vec<u32> = Vec::new();
    let mut best: Option<BattleStats> = None;
    let mut i: usize = 0;
    while i < stats.len()
        invariant
            i <= stats@.len(),
            i == 0 ==> best is None && leaders@ == Seq::<u32>::empty(),
            i > 0 ==> best == Some(top(stats@.take(i as int))) && leaders@ == ids_ranked_as(
                stats@.take(i as int),
                top(stats@.take(i as int)),
            ),
        decreases stats@.len() - i,
    {
        let s = stats[i];
        let ghost prefix = stats@.take(i as int);
        let ghost next = stats@.take(i + 1 as int);
        assert(next.drop_last() =~= prefix);
        assert(next.last() == s);
        match best {
            None => {
                assert(next =~= seq![s]);
                assert(top(next) == s);
                assert(ids_ranked_as(Seq::<BattleStats>::empty(), s) =~= Seq::<u32>::empty());
                assert(prefix =~= Seq::<BattleStats>::empty());
                best = Some(s);
                leaders.push(s.warrior_id);
                assert(leaders@ =~= seq![s.warrior_id]);
            },
            Some(b) => {
                let greater = b.score < s.score || (b.score == s.score && (b.wins < s.wins || (
                b.wins == s.wins && b.draws < s.draws)));
                assert(top(next) == if key_lt(top(prefix), s) {
                    s
                } else {
                    top(prefix)
                });
                if greater {
                    proof {
                        lemma_top_is_highest(prefix);
                        lemma_ids_ranked_as_none(prefix, s);
                    }
                    best = Some(s);
                    leaders.clear();
                    leaders.push(s.warrior_id);
                    assert(leaders@ =~= seq![s.warrior_id]);
                    assert(ids_ranked_as(next, s) == ids_ranked_as(prefix, s).push(s.warrior_id));
                } else if b.score == s.score && b.wins == s.wins && b.draws == s.draws {
                    leaders.push(s.warrior_id);
                    assert(ids_ranked_as(next, b) == ids_ranked_as(prefix, b).push(s.warrior_id));
                } else {
                    assert(ids_ranked_as(next, b) == ids_ranked_as(prefix, b));
                }
            },
        }
        i = i + 1;
    }
    assert(stats@.take(stats@.len() as int) =~= stats@);
    if leaders.len() == 1 {
        BattleResult::Win { winner_id: leaders[0] }
    } else {
        BattleResult::Draw { survivor_ids: leaders }
    }
}

// ---------------------------------------------------------------------------
// Reporting a result
// ---------------------------------------------------------------------------

/// The name of warrior `id` (1-based) among `warriors`.
pub open spec fn spec_warrior_name(warriors: Seq<Seq<char>>, id: u32) -> Option<Seq<char>> {
    if 1 <= id && id - 1 < warriors.len() {
        Some(warriors[id - 1])
    } else {
        None
    }
}

/// The names of the warriors `ids` that have one, in order.
pub open spec fn named(warriors: Seq<Seq<char>>, ids: Seq<u32>) -> Seq<Seq<char>>
    decreases ids.len(),
{
    if ids.len() == 0 {
        Seq::empty()
    } else {
        let rest = named(warriors, ids.drop_last());
        match spec_warrior_name(warriors, ids.last()) {
            Some(n) => rest.push(n),
            None => rest,
        }
    }
}

/// The message announcing a result: the winner by name (or `warrior-<id>`
/// when it has none), the survivors of a draw by name.
pub open spec fn spec_result_message(warriors: Seq<Seq<char>>, r: SpecBattleResult) -> SpecResultMsg {
    match r {
        SpecBattleResult::Win { winner_id } => SpecResultMsg::Win {
            winner: match spec_warrior_name(warriors, winner_id) {
                Some(n) => n,
                None => "warrior-"@ + decimal(winner_id as nat),
            },
        },
        SpecBattleResult::Draw { survivor_ids } => SpecResultMsg::Draw {
            survivors: named(warriors, survivor_ids),
        },
    }
}

/// The name of warrior `warrior_id` (1-based).
pub fn warrior_name(warriors: &[String], warrior_id: u32) -> (r: Option<String>)
    ensures
        match r {
            Some(n) => spec_warrior_name(strings_view(warriors@), warrior_id) == Some(n@),
            None => spec_warrior_name(strings_view(warriors@), warrior_id) is None,
        },
{
    if warrior_id >= 1 && ((warrior_id - 1) as usize) < warriors.len() {
        Some(warriors[(warrior_id - 1) as usize].clone())
    } else {
        None
    }
}

fn named_exec(warriors: &[String], ids: &[u32]) -> (r: Vec<String>)
    ensures
        strings_view(r@) == named(strings_view(warriors@), ids@),
{
    let mut out: Vec<String> = Vec::new();
    let mut i: usize = 0;
    assert(strings_view(out@) =~= named(strings_view(warriors@), ids@.take(0)));
    while i < ids.len()
        invariant
            i <= ids@.len(),
            strings_view(out@) == named(strings_view(warriors@), ids@.take(i as int)),
        decreases ids@.len() - i,
    {
        assert(ids@.take(i + 1 as int).drop_last() =~= ids@.take(i as int));
        match warrior_name(warriors, ids[i]) {
            Some(n) => {
                let ghost before = out@;
                out.push(n);
                assert(strings_view(out@) =~= strings_view(before).push(n@));
            },
            None => {},
        }
        i = i + 1;
    }
    assert(ids@.take(ids@.len() as int) =~= ids@);
    out
}

/// The wire message for a battle result (see [`spec_result_message`]).
pub fn battle_result_message(warriors: &[String], result: &BattleResult) -> (m: BattleResultMsg)
    ensures
        result_msg_view(m) == spec_result_message(
            strings_view(warriors@),
            battle_result_view(*result),
        ),
{
    match result {
        BattleResult::Win { winner_id } => {
            let winner = match warrior_name(warriors, *winner_id) {
                Some(n) => n,
                None => with_number("warrior-", *winner_id as u64),
            };
            BattleResultMsg::Win { winner }
        },
        BattleResult::Draw { survivor_ids } => {
            BattleResultMsg::Draw { survivors: named_exec(warriors, survivor_ids.as_slice()) }
        },
    }
}

/// The entries of `warriors` other than `winner`, in order.
pub open spec fn others(warriors: Seq<Seq<char>>, winner: Seq<char>) -> Seq<Seq<char>>
    decreases warriors.len(),
{
    if warriors.len() == 0 {
        Seq::empty()
    } else {
        let rest = others(warriors.drop_last(), winner);
        if warriors.last() != winner {
            rest.push(warriors.last())
        } else {
            rest
        }
    }
}

/// The leaderboard outcomes of a battle: a win over each other warrior, or
/// one draw among the named survivors when there are at least two.
pub open spec fn spec_outcomes(warriors: Seq<Seq<char>>, r: SpecBattleResult) -> Seq<SpecOutcome> {
    match r {
        SpecBattleResult::Win { winner_id } => match spec_warrior_name(warriors, winner_id) {
            None => Seq::empty(),
            Some(w) => others(warriors, w).map_values(
                |l: Seq<char>| SpecOutcome::Win { winner: w, loser: l },
            ),
        },
        SpecBattleResult::Draw { survivor_ids } => {
            let survivors = named(warriors, survivor_ids);
            if survivors.len() < 2 {
                Seq::empty()
            } else {
                seq![SpecOutcome::Draw { players: survivors }]
            }
        },
    }
}

/// The leaderboard outcomes of a battle (see [`spec_outcomes`]).
pub fn battle_result_to_outcomes(warriors: &[String], result: &BattleResult) -> (r: Vec<
    MatchOutcome,
>)
    ensures
        r@.map_values(|o: MatchOutcome| outcome_view(o)) == spec_outcomes(
            strings_view(warriors@),
            battle_result_view(*result),
        ),
{
    match result {
        BattleResult::Win { winner_id } => {
            let winner = match warrior_name(warriors, *winner_id) {
                Some(n) => n,
                None => {
                    let r: Vec<MatchOutcome> = Vec::new();
                    assert(r@.map_values(|o: MatchOutcome| outcome_view(o)) =~= Seq::<
                        SpecOutcome,
                    >::empty());
                    return r;
                },
            };
            let ghost w = winner@;
            let ghost all = strings_view(warriors@);
            let mut out: Vec<MatchOutcome> = Vec::new();
            let mut i: usize = 0;
            assert(all.take(0) =~= Seq::<Seq<char>>::empty());
            assert(out@.map_values(|o: MatchOutcome| outcome_view(o)) =~= others(
                all.take(0),
                w,
            ).map_values(|l: Seq<char>| SpecOutcome::Win { winner: w, loser: l }));
            while i < warriors.len()
                invariant
                    i <= warriors@.len(),
                    all == strings_view(warriors@),
                    w == winner@,
                    out@.map_values(|o: MatchOutcome| outcome_view(o)) == others(
                        all.take(i as int),
                        w,
                    ).map_values(|l: Seq<char>| SpecOutcome::Win { winner: w, loser: l }),
                decreases warriors@.len() - i,
            {
                assert(all.take(i + 1 as int).drop_last() =~= all.take(i as int));
                assert(all.take(i + 1 as int).last() == warriors@[i as int]@);
                if warriors[i] != winner {
                    let ghost before = out@;
                    let o = MatchOutcome::Win { winner: winner.clone(), loser: warriors[i].clone() };
                    out.push(o);
                    assert(out@.map_values(|o: MatchOutcome| outcome_view(o)) =~= before.map_values(
                        |o: MatchOutcome| outcome_view(o),
                    ).push(outcome_view(o)));
                    assert(others(all.take(i + 1 as int), w).map_values(
                        |l: Seq<char>| SpecOutcome::Win { winner: w, loser: l },
                    ) =~= others(all.take(i as int), w).map_values(
                        |l: Seq<char>| SpecOutcome::Win { winner: w, loser: l },
                    ).push(SpecOutcome::Win { winner: w, loser: warriors@[i as int]@ }));
                }
                i = i + 1;
            }
            assert(all.take(warriors@.len() as int) =~= all);
            out
        },
        BattleResult::Draw { survivor_ids } => {
            let survivors = named_exec(warriors, survivor_ids.as_slice());
            let mut out: Vec<MatchOutcome> = Vec::new();
            if survivors.len() >= 2 {
                let o = MatchOutcome::Draw { players: survivors };
                out.push(o);
                assert(out@.map_values(|o: MatchOutcome| outcome_view(o)) =~= seq![
                    outcome_view(o),
                ]);
            } else {
                assert(out@.map_values(|o: MatchOutcome| outcome_view(o)) =~= Seq::<
                    SpecOutcome,
                >::empty());
            }
            out
        },
    }
}

// ---------------------------------------------------------------------------
// Tournaments
// ---------------------------------------------------------------------------

/// Scheduling strategy for tournament matchmaking.
#[derive(Debug, Clone, Copy, PartialEq, Eq, Structural)]
pub enum ScheduleStrategy {
    /// Every warrior fights every other warrior.
    RoundRobin,
    /// Swiss-system pairing based on current standings.
    Swiss { rounds: usize },
    /// Single-elimination bracket.
    Elimination,
}

/// Configuration for a tournament.
#[derive(Debug, Clone, Copy, PartialEq, Eq, Structural)]
pub struct TournamentConfig {
    /// How matches are scheduled.
    pub strategy: ScheduleStrategy,
    /// Number of rounds per matchup.
    pub rounds_per_match: usize,
    /// Maximum concurrent battles.
    pub concurrency: usize,
}

impl Default for TournamentConfig {
    fn default() -> (r: Self)
        ensures
            r == (TournamentConfig {
                strategy: ScheduleStrategy::RoundRobin,
                rounds_per_match: 100,
                concurrency: 4,
            }),
    {
        TournamentConfig { strategy: ScheduleStrategy::RoundRobin, rounds_per_match: 100, concurrency: 4 }
    }
}

/// A scheduled match between warriors, by name.
#[derive(Debug, Clone, PartialEq, Eq)]
pub struct Match {
    pub id: String,
    pub round: usize,
    pub warrior_ids: Vec<String>,
}

/// The warrior that advances from an elimination match: the winner; in a
/// draw the first survivor that has a name, else the match's first warrior.
pub open spec fn spec_advancing(warriors: Seq<Seq<char>>, r: SpecBattleResult) -> Option<Seq<char>> {
    match r {
        SpecBattleResult::Win { winner_id } => spec_warrior_name(warriors, winner_id),
        SpecBattleResult::Draw { survivor_ids } => {
            let survivors = named(warriors, survivor_ids);
            if survivors.len() > 0 {
                Some(survivors[0])
            } else if warriors.len() > 0 {
                Some(warriors[0])
            } else {
                None
            }
        },
    }
}

/// The first entry of the names of `ids` is the name of the first id that
/// names a warrior; there is one exactly when some id names a warrior.
proof fn lemma_first_named(warriors: Seq<Seq<char>>, ids: Seq<u32>)
    ensures
        named(warriors, ids).len() > 0 <==> exists|k: int|
            0 <= k < ids.len() && #[trigger] spec_warrior_name(warriors, ids[k]) is Some,
        named(warriors, ids).len() > 0 ==> exists|k: int|
            0 <= k < ids.len() && #[trigger] spec_warrior_name(warriors, ids[k]) == Some(
                named(warriors, ids)[0],
            ) && forall|j: int| 0 <= j < k ==> spec_warrior_name(warriors, ids[j]) is None,
    decreases ids.len(),
{
    if ids.len() > 0 {
        let rest = ids.drop_last();
        lemma_first_named(warriors, rest);
        assert forall|j: int| 0 <= j < rest.len() implies rest[j] == ids[j] by {}
        if named(warriors, rest).len() > 0 {
            let k = choose|k: int|
                0 <= k < rest.len() && #[trigger] spec_warrior_name(warriors, rest[k]) == Some(
                    named(warriors, rest)[0],
                ) && forall|j: int| 0 <= j < k ==> spec_warrior_name(warriors, rest[j]) is None;
            assert(spec_warrior_name(warriors, ids[k]) == Some(named(warriors, ids)[0]));
            assert forall|j: int| 0 <= j < k implies spec_warrior_name(warriors, ids[j]) is None by {
                assert(rest[j] == ids[j]);
            }
        } else {
            assert forall|j: int| 0 <= j < rest.len() implies spec_warrior_name(
                warriors,
                ids[j],
            ) is None by {
                assert(rest[j] == ids[j]);
                if spec_warrior_name(warriors, rest[j]) is Some {
                    assert(exists|k: int|
                        0 <= k < rest.len() && #[trigger] spec_warrior_name(warriors, rest[k])
                            is Some);
                }
            }
            let last = ids.len() - 1;
            if spec_warrior_name(warriors, ids[last]) is Some {
                assert(spec_warrior_name(warriors, ids[last]) == Some(named(warriors, ids)[0]));
            }
        }
    }
}

/// Who advances from a match: the winner's name; in a draw, the name of
/// the first survivor (in the result's order) that names a warrior of the
/// match, else the match's first warrior.
pub proof fn lemma_advancing_warrior(warriors: Seq<Seq<char>>, r: SpecBattleResult)
    ensures
        r matches SpecBattleResult::Win { winner_id } ==> spec_advancing(warriors, r)
            == spec_warrior_name(warriors, winner_id),
        r matches SpecBattleResult::Draw { survivor_ids } ==> {
            let ids = survivor_ids;
            if exists|k: int| 0 <= k < ids.len() && #[trigger] spec_warrior_name(warriors, ids[k]) is Some {
                exists|k: int|
                    0 <= k < ids.len() && #[trigger] spec_warrior_name(warriors, ids[k])
                        == spec_advancing(warriors, r) && spec_advancing(warriors, r) is Some
                        && forall|j: int| 0 <= j < k ==> spec_warrior_name(warriors, ids[j]) is None
            } else if warriors.len() > 0 {
                spec_advancing(warriors, r) == Some(warriors[0])
            } else {
                spec_advancing(warriors, r) is None
            }
        },
{
    if let SpecBattleResult::Draw { survivor_ids } = r {
        lemma_first_named(warriors, survivor_ids);
    }
}

/// Who advances from an elimination match (see [`spec_advancing`]).
pub fn pick_advancing_warrior(scheduled_match: &Match, result: &BattleResult) -> (r: Option<
    String,
>)
    ensures
        match r {
            Some(n) => spec_advancing(
                strings_view(scheduled_match.warrior_ids@),
                battle_result_view(*result),
            ) == Some(n@),
            None => spec_advancing(
                strings_view(scheduled_match.warrior_ids@),
                battle_result_view(*result),
            ) is None,
        },
{
    let warriors = scheduled_match.warrior_ids.as_slice();
    match result {
        BattleResult::Win { winner_id } => warrior_name(warriors, *winner_id),
        BattleResult::Draw { survivor_ids } => {
            let survivors = named_exec(warriors, survivor_ids.as_slice());
            if survivors.len() > 0 {
                Some(survivors[0].clone())
            } else if warriors.len() > 0 {
                Some(warriors[0].clone())
            } else {
                None
            }
        },
    }
}

/// Adds the counts of `delta` to `total`.
pub fn merge_stats(total: &mut BattleStats, delta: &BattleStats)
    requires
        old(total).wins + delta.wins <= u64::MAX,
        old(total).losses + delta.losses <= u64::MAX,
        old(total).draws + delta.draws <= u64::MAX,
        old(total).score + delta.score <= u64::MAX,
        old(total).processes_created + delta.processes_created <= u64::MAX,
        old(total).instructions_executed + delta.instructions_executed <= u64::MAX,
    ensures
        final(total).warrior_id == old(total).warrior_id,
        final(total).wins == old(total).wins + delta.wins,
        final(total).losses == old(total).losses + delta.losses,
        final(total).draws == old(total).draws + delta.draws,
        final(total).score == old(total).score + delta.score,
        final(total).processes_created == old(total).processes_created + delta.processes_created,
        final(total).instructions_executed == old(total).instructions_executed
            + delta.instructions_executed,
{
    total.wins = total.wins + delta.wins;
    total.losses = total.losses + delta.losses;
    total.draws = total.draws + delta.draws;
    total.score = total.score + delta.score;
    total.processes_created = total.processes_created + delta.processes_created;
    total.instructions_executed = total.instructions_executed + delta.instructions_executed;
}

/// The statistics a report holds for the warrior in slot `index` (warrior
/// id `index + 1`, as a `u32` holds it), or zeros with that id when it holds
/// none.
pub open spec fn spec_stats_for_slot(stats: Seq<BattleStats>, index: nat) -> BattleStats
    decreases stats.len(),
{
    if stats.len() == 0 {
        BattleStats { warrior_id: (index + 1) as u32, ..zero_stats() }
    } else if stats[0].warrior_id == (index + 1) as u32 {
        stats[0]
    } else {
        spec_stats_for_slot(stats.drop_first(), index)
    }
}

/// The first statistics for warrior id `index + 1` (see
/// [`spec_stats_for_slot`]).
pub fn stats_for_slot(stats: &[BattleStats], index: usize) -> (r: BattleStats)
    requires
        index < usize::MAX,
    ensures
        r == spec_stats_for_slot(stats@, index as nat),
{
    let id = #[verifier::truncate] ((index + 1) as u32);
    let mut i: usize = 0;
    assert(stats@.skip(0) =~= stats@);
    while i < stats.len()
        invariant
            i <= stats@.len(),
            id == (index + 1) as u32,
            spec_stats_for_slot(stats@, index as nat) == spec_stats_for_slot(
                stats@.skip(i as int),
                index as nat,
            ),
        decreases stats@.len() - i,
    {
        assert(stats@.skip(i as int)[0] == stats@[i as int]);
        if stats[i].warrior_id == id {
            return stats[i];
        }
        assert(stats@.skip(i as int).drop_first() =~= stats@.skip(i + 1 as int));
        i = i + 1;
    }
    assert(stats@.skip(i as int) =~= Seq::<BattleStats>::empty());
    BattleStats {
        warrior_id: id,
        wins: 0,
        losses: 0,
        draws: 0,
        score: 0,
        processes_created: 0,
        instructions_executed: 0,
    }
}

// ---------------------------------------------------------------------------
// Battle instances
// ---------------------------------------------------------------------------

/// Lifecycle of a battle instance.
#[derive(Debug, Clone, Copy, PartialEq, Eq, Structural)]
pub enum BattleInstanceStatus {
    Pending,
    Running,
    Complete,
}

/// The visualization event for a core event; eliminations and cycle ends
/// are not shown.
pub open spec fn spec_cycle_event(event: CoreEvent) -> Option<CycleEvent> {
    match event {
        CoreEvent::Read { address, warrior_id } => Some(CycleEvent::Read { address, warrior_id }),
        CoreEvent::MemoryWrite { address, warrior_id, .. } => Some(
            CycleEvent::Write { address, warrior_id },
        ),
        CoreEvent::Execute { address, warrior_id } => Some(
            CycleEvent::Execute { address, warrior_id },
        ),
        CoreEvent::ProcessCreated { warrior_id, address } => Some(
            CycleEvent::ProcessCreated { warrior_id, address },
        ),
        CoreEvent::ProcessKilled { warrior_id, address } => Some(
            CycleEvent::ProcessKilled { warrior_id, address },
        ),
        CoreEvent::WarriorEliminated { .. } | CoreEvent::CycleComplete => None,
    }
}

/// The kind of core event a visualization event shows.
pub open spec fn shown_kind(c: CycleEvent) -> CoreEventKind {
    match c {
        CycleEvent::Read { .. } => CoreEventKind::Read,
        CycleEvent::Write { .. } => CoreEventKind::MemoryWrite,
        CycleEvent::Execute { .. } => CoreEventKind::Execute,
        CycleEvent::ProcessCreated { .. } => CoreEventKind::ProcessCreated,
        CycleEvent::ProcessKilled { .. } => CoreEventKind::ProcessKilled,
    }
}

/// The (address, warrior) a visualization event shows.
pub open spec fn shown_place(c: CycleEvent) -> (usize, u32) {
    match c {
        CycleEvent::Read { address, warrior_id } => (address, warrior_id),
        CycleEvent::Write { address, warrior_id } => (address, warrior_id),
        CycleEvent::Execute { address, warrior_id } => (address, warrior_id),
        CycleEvent::ProcessCreated { warrior_id, address } => (address, warrior_id),
        CycleEvent::ProcessKilled { warrior_id, address } => (address, warrior_id),
    }
}

/// The core address a core event happened at, if any.
pub open spec fn core_event_address(e: CoreEvent) -> Option<usize> {
    match e {
        CoreEvent::Execute { address, .. } => Some(address),
        CoreEvent::Read { address, .. } => Some(address),
        CoreEvent::MemoryWrite { address, .. } => Some(address),
        CoreEvent::ProcessCreated { address, .. } => Some(address),
        CoreEvent::ProcessKilled { address, .. } => Some(address),
        CoreEvent::WarriorEliminated { .. } | CoreEvent::CycleComplete => None,
    }
}

/// Showing a core event keeps its kind, its address and its warrior: a
/// write is shown as a write, a read as a read, and so on. Only
/// eliminations and cycle ends are not shown.
pub proof fn lemma_cycle_event_keeps_kind(e: CoreEvent)
    ensures
        spec_cycle_event(e) is None <==> (spec_event_kind(e) == CoreEventKind::WarriorEliminated
            || spec_event_kind(e) == CoreEventKind::CycleComplete),
        spec_cycle_event(e) matches Some(c) ==> {
            &&& shown_kind(c) == spec_event_kind(e)
            &&& Some(shown_place(c).0) == core_event_address(e)
            &&& Some(shown_place(c).1) == spec_event_warrior(e)
        },
{
}

/// See [`spec_cycle_event`].
pub fn map_cycle_event(event: &TimedEvent) -> (r: Option<CycleEvent>)
    ensures
        r == spec_cycle_event(event.event),
        r matches Some(c) ==> shown_kind(c) == spec_event_kind(event.event) && Some(
            shown_place(c).0,
        ) == core_event_address(event.event),
{
    match event.event {
        CoreEvent::Read { address, warrior_id } => Some(CycleEvent::Read { address, warrior_id }),
        CoreEvent::MemoryWrite { address, warrior_id, .. } => Some(
            CycleEvent::Write { address, warrior_id },
        ),
        CoreEvent::Execute { address, warrior_id } => Some(
            CycleEvent::Execute { address, warrior_id },
        ),
        CoreEvent::ProcessCreated { warrior_id, address } => Some(
            CycleEvent::ProcessCreated { warrior_id, address },
        ),
        CoreEvent::ProcessKilled { warrior_id, address } => Some(
            CycleEvent::ProcessKilled { warrior_id, address },
        ),
        CoreEvent::WarriorEliminated { .. } | CoreEvent::CycleComplete => None,
    }
}

/// The visualization events of a cycle, in order, skipping those that are
/// not shown.
pub open spec fn spec_cycle_events(events: Seq<TimedEvent>) -> Seq<CycleEvent>
    decreases events.len(),
{
    if events.len() == 0 {
        Seq::empty()
    } else {
        let rest = spec_cycle_events(events.drop_last());
        match spec_cycle_event(events.last().event) {
            Some(e) => rest.push(e),
            None => rest,
        }
    }
}

/// See [`spec_cycle_events`].
pub fn cycle_events(events: &[TimedEvent]) -> (r: Vec<CycleEvent>)
    ensures
        r@ == spec_cycle_events(events@),
{
    let mut out: Vec<CycleEvent> = Vec::new();
    let mut i: usize = 0;
    assert(events@.take(0) =~= Seq::<TimedEvent>::empty());
    while i < events.len()
        invariant
            i <= events@.len(),
            out@ == spec_cycle_events(events@.take(i as int)),
        decreases events@.len() - i,
    {
        assert(events@.take(i + 1 as int).drop_last() =~= events@.take(i as int));
        match map_cycle_event(&events[i]) {
            Some(e) => out.push(e),
            None => {},
        }
        i = i + 1;
    }
    assert(events@.take(events@.len() as int) =~= events@);
    out
}

} // verus!

//! Running a tournament as a sequence of decisions.
//!
//! A tournament asks for pairings, has the scheduled matches played, adds
//! each match report to the standings, and decides what comes next: the
//! next round-robin group, the next Swiss round (re-ordered by standings),
//! the next elimination round (a bye for an odd warrior out, then the
//! winners), or the end with the final standings. Pairing warriors and
//! playing the battles is done by whoever drives the tournament.
use vstd::prelude::*;

use crate::battle::{
    battle_result_view, pick_advancing_warrior, spec_advancing, spec_stats_for_slot,
    stats_for_slot, BattleResult, BattleStats, Match, ScheduleStrategy,
};
use crate::leaderboard::{dedup, unique_players};
use crate::protocol::{copy_strings, strings_view, BattleResultMsg};
use crate::rounds::{
    advancers, bye, group_by_round, grouped_by_round, match_name, match_view, matches_view,
    next_elimination_round, number_matches, options_view, MatchView,
};
use crate::standings::{
    can_merge, initialise_standings, merge_fits, merged, ordered_participants, rank_fn,
    record_standing, report_fits, sorted_ranks, standing_after_report, standing_for,
    standing_names, standing_of, standing_view_fn, standings_vec,
};

verus! {

/// What a battle run reports: the result, how it is announced, and each
/// warrior's statistics.
#[derive(Debug, Clone)]
pub struct BattleRunReport {
    pub result: BattleResult,
    pub result_message: BattleResultMsg,
    pub stats: Vec<BattleStats>,
}

/// A match report as names in slot order and the statistics reported.
pub type ReportView = (Seq<Seq<char>>, Seq<BattleStats>);

/// The reports of completed matches, in the order they completed.
pub open spec fn reports_view(completed: Seq<(Match, BattleRunReport)>) -> Seq<ReportView> {
    completed.map_values(
        |c: (Match, BattleRunReport)| (strings_view(c.0.warrior_ids@), c.1.stats@),
    )
}

/// Standings as a function from name to statistics.
pub open spec fn standings_fn(st: Seq<(String, BattleStats)>) -> spec_fn(Seq<char>) -> BattleStats {
    |n: Seq<char>| standing_of(st, n)
}

/// The statistics of `name` once a report is added slot by slot to the
/// standings `before` gives: slot `k`'s statistics go to the `k`-th name.
pub open spec fn slots_applied(
    before: spec_fn(Seq<char>) -> BattleStats,
    names: Seq<Seq<char>>,
    stats: Seq<BattleStats>,
    name: Seq<char>,
) -> BattleStats
    decreases names.len(),
{
    if names.len() == 0 {
        before(name)
    } else {
        let b = slots_applied(before, names.drop_last(), stats, name);
        if names.last() == name {
            merged(b, spec_stats_for_slot(stats, (names.len() - 1) as nat))
        } else {
            b
        }
    }
}

/// Every addition of a report stays within `u64`.
pub open spec fn slots_fit(
    before: spec_fn(Seq<char>) -> BattleStats,
    names: Seq<Seq<char>>,
    stats: Seq<BattleStats>,
) -> bool
    decreases names.len(),
{
    names.len() == 0 || (slots_fit(before, names.drop_last(), stats) && can_merge(
        slots_applied(before, names.drop_last(), stats, names.last()),
        spec_stats_for_slot(stats, (names.len() - 1) as nat),
    ))
}

/// The standings after the reports are added, one after the other.
pub open spec fn reports_applied(
    start: spec_fn(Seq<char>) -> BattleStats,
    reports: Seq<ReportView>,
) -> spec_fn(Seq<char>) -> BattleStats
    decreases reports.len(),
{
    if reports.len() == 0 {
        start
    } else {
        let prev = reports_applied(start, reports.drop_last());
        let last = reports.last();
        |n: Seq<char>| slots_applied(prev, last.0, last.1, n)
    }
}

/// Adding the reports one after the other keeps every count within `u64`.
pub open spec fn reports_fit(start: spec_fn(Seq<char>) -> BattleStats, reports: Seq<ReportView>) -> bool
    decreases reports.len(),
{
    reports.len() == 0 || (reports_fit(start, reports.drop_last()) && slots_fit(
        reports_applied(start, reports.drop_last()),
        reports.last().0,
        reports.last().1,
    ))
}

/// A round's reports are the match reports of
/// [`crate::standings::apply_match_report`], added in turn: one report
/// changes the standings as that function does, and fits exactly when it
/// does.
pub proof fn lemma_report_is_match_report(
    st: Seq<(String, BattleStats)>,
    names: Seq<Seq<char>>,
    stats: Seq<BattleStats>,
)
    ensures
        forall|n: Seq<char>| #[trigger]
            reports_applied(standings_fn(st), seq![(names, stats)])(n) == standing_after_report(
                st,
                names,
                stats,
                n,
            ),
        reports_fit(standings_fn(st), seq![(names, stats)]) == report_fits(st, names, stats),
{
    let one: Seq<ReportView> = seq![(names, stats)];
    let start = standings_fn(st);
    assert(one.drop_last() =~= Seq::<ReportView>::empty());
    assert(reports_applied(start, one.drop_last()) == start);
    assert(reports_fit(start, one.drop_last()));
    assert(one.last() == (names, stats));
    assert forall|n: Seq<char>| #[trigger]
        reports_applied(standings_fn(st), one)(n) == standing_after_report(st, names, stats, n) by {
        lemma_slots_are_report(st, names, stats, n);
    }
    lemma_slots_fit_is_report_fits(st, names, stats);
}

proof fn lemma_slots_are_report(
    st: Seq<(String, BattleStats)>,
    names: Seq<Seq<char>>,
    stats: Seq<BattleStats>,
    n: Seq<char>,
)
    ensures
        slots_applied(standings_fn(st), names, stats, n) == standing_after_report(st, names, stats, n),
    decreases names.len(),
{
    if names.len() > 0 {
        lemma_slots_are_report(st, names.drop_last(), stats, n);
    }
}

proof fn lemma_slots_fit_is_report_fits(
    st: Seq<(String, BattleStats)>,
    names: Seq<Seq<char>>,
    stats: Seq<BattleStats>,
)
    ensures
        slots_fit(standings_fn(st), names, stats) == report_fits(st, names, stats),
    decreases names.len(),
{
    if names.len() > 0 {
        lemma_slots_fit_is_report_fits(st, names.drop_last(), stats);
        lemma_slots_are_report(st, names.drop_last(), stats, names.last());
    }
}

proof fn lemma_slots_fit_prefix(
    before: spec_fn(Seq<char>) -> BattleStats,
    names: Seq<Seq<char>>,
    stats: Seq<BattleStats>,
    k: int,
)
    requires
        slots_fit(before, names, stats),
        0 <= k <= names.len(),
    ensures
        slots_fit(before, names.take(k), stats),
    decreases names.len() - k,
{
    if k < names.len() {
        assert(names.drop_last().take(k) =~= names.take(k));
        lemma_slots_fit_prefix(before, names.drop_last(), stats, k);
    } else {
        assert(names.take(k) =~= names);
    }
}

proof fn lemma_reports_fit_prefix(
    start: spec_fn(Seq<char>) -> BattleStats,
    reports: Seq<ReportView>,
    k: int,
)
    requires
        reports_fit(start, reports),
        0 <= k <= reports.len(),
    ensures
        reports_fit(start, reports.take(k)),
    decreases reports.len() - k,
{
    if k < reports.len() {
        assert(reports.drop_last().take(k) =~= reports.take(k));
        lemma_reports_fit_prefix(start, reports.drop_last(), k);
    } else {
        assert(reports.take(k) =~= reports);
    }
}

/// Adds the reports of completed matches to the standings, in order (see
/// [`reports_applied`]); says whether every count stayed within `u64`.
/// When one would not, the standings are left part-way updated.
fn apply_reports(
    standings: &mut Vec<(String, BattleStats)>,
    completed: &[(Match, BattleRunReport)],
) -> (ok: bool)
    ensures
        ok == reports_fit(standings_fn(old(standings)@), reports_view(completed@)),
        ok ==> forall|n: Seq<char>| #[trigger]
            standing_of(final(standings)@, n) == reports_applied(
                standings_fn(old(standings)@),
                reports_view(completed@),
            )(n),
{
    let ghost s0 = standings_fn(standings@);
    let ghost reps = reports_view(completed@);
    let mut j: usize = 0;
    assert(reps.take(0) =~= Seq::<ReportView>::empty());
    while j < completed.len()
        invariant
            j <= completed@.len(),
            s0 == standings_fn(old(standings)@),
            reps == reports_view(completed@),
            reports_fit(s0, reps.take(j as int)),
            forall|n: Seq<char>| #[trigger]
                standing_of(standings@, n) == reports_applied(s0, reps.take(j as int))(n),
        decreases completed@.len() - j,
    {
        let scheduled = &completed[j].0;
        let stats = completed[j].1.stats.as_slice();
        let ghost prev = reports_applied(s0, reps.take(j as int));
        let ghost names = strings_view(scheduled.warrior_ids@);
        proof {
            assert(reps.len() == completed@.len());
            assert(reps[j as int] == (names, stats@));
            assert(reps.take(j + 1 as int).drop_last() =~= reps.take(j as int));
            assert(reps.take(j + 1 as int).last() == reps[j as int]);
        }
        let mut k: usize = 0;
        assert(names.take(0) =~= Seq::<Seq<char>>::empty());
        while k < scheduled.warrior_ids.len()
            invariant
                k <= names.len(),
                names == strings_view(scheduled.warrior_ids@),
                j < completed@.len(),
                s0 == standings_fn(old(standings)@),
                reps == reports_view(completed@),
                reps.len() == completed@.len(),
                reps[j as int] == (names, stats@),
                reports_fit(s0, reps.take(j as int)),
                prev == reports_applied(s0, reps.take(j as int)),
                reps.take(j + 1 as int).drop_last() == reps.take(j as int),
                reps.take(j + 1 as int).last() == reps[j as int],
                slots_fit(prev, names.take(k as int), stats@),
                forall|n: Seq<char>| #[trigger]
                    standing_of(standings@, n) == slots_applied(
                        prev,
                        names.take(k as int),
                        stats@,
                        n,
                    ),
            decreases names.len() - k,
        {
            let name = &scheduled.warrior_ids[k];
            let delta = stats_for_slot(stats, k);
            let current = standing_for(standings, name);
            proof {
                assert(names.take(k + 1 as int).drop_last() =~= names.take(k as int));
                assert(names.take(k + 1 as int).last() == name@);
            }
            if !merge_fits(&current, &delta) {
                proof {
                    assert(!slots_fit(prev, names.take(k + 1 as int), stats@));
                    if slots_fit(prev, names, stats@) {
                        lemma_slots_fit_prefix(prev, names, stats@, k + 1);
                    }
                    assert(!slots_fit(prev, names, stats@));
                    let t = reps.take(j + 1 as int);
                    assert(t.drop_last() == reps.take(j as int));
                    assert(t.last().0 == names && t.last().1 == stats@);
                    assert(reports_applied(s0, t.drop_last()) == prev);
                    assert(!reports_fit(s0, t));
                    assert(reps.len() == completed@.len());
                    if reports_fit(s0, reps) {
                        lemma_reports_fit_prefix(s0, reps, j + 1);
                    }
                }
                return false;
            }
            record_standing(standings, name, &delta);
            k = k + 1;
        }
        proof {
            assert(names.take(names.len() as int) =~= names);
            assert forall|n: Seq<char>| #[trigger] standing_of(standings@, n) == reports_applied(
                s0,
                reps.take(j + 1 as int),
            )(n) by {}
        }
        j = j + 1;
    }
    assert(reps.take(completed@.len() as int) =~= reps);
    true
}

// ---------------------------------------------------------------------------
// The tournament's decisions
// ---------------------------------------------------------------------------

/// How a tournament ends: the final standings, best first, and how many
/// matches were played.
#[derive(Debug)]
pub struct TournamentResult {
    pub standings: Vec<(String, BattleStats)>,
    pub matches_played: usize,
}

/// What a tournament asks for next.
pub enum TournamentAction {
    /// Pair `participants`, in this order, for round `round`, and hand the
    /// scheduled matches to [`TournamentState::matches_scheduled`].
    Pair { round: usize, participants: Vec<String> },
    /// Play these matches and hand their reports, in the order they
    /// complete, to [`TournamentState::round_completed`].
    Play(Vec<Match>),
    /// The tournament is over.
    Finish(TournamentResult),
}

/// Where a tournament stands.
pub struct TournamentState {
    pub strategy: ScheduleStrategy,
    /// Each warrior's seed, the last position it was entered at; the first
    /// entry for a name counts.
    pub seeds: Vec<(String, usize)>,
    pub standings: Vec<(String, BattleStats)>,
    pub matches_played: usize,
    /// The current round, from 1.
    pub round: usize,
    /// The warriors still in play, in the order last scheduled.
    pub participants: Vec<String>,
    /// Round-robin groups not yet played, in round order.
    pub rounds_left: Vec<Vec<Match>>,
}

/// The groups of matches by value.
pub open spec fn groups_view(groups: Seq<Vec<Match>>) -> Seq<Seq<MatchView>> {
    groups.map_values(|g: Vec<Match>| matches_view(g@))
}

/// `result` holds `standings` best first and `played` matches.
pub open spec fn final_result(
    result: TournamentResult,
    standings: Seq<(String, BattleStats)>,
    played: usize,
) -> bool {
    &&& result.matches_played == played
    &&& result.standings@.map_values(standing_view_fn()).to_multiset() == standings.map_values(
        standing_view_fn(),
    ).to_multiset()
    &&& sorted_ranks(result.standings@.map_values(standing_view_fn()))
}

/// `ordered` holds the names of `participants` in rank order by `standings`
/// and `seeds`.
pub open spec fn in_rank_order(
    ordered: Seq<Seq<char>>,
    participants: Seq<Seq<char>>,
    standings: Seq<(String, BattleStats)>,
    seeds: Seq<(String, usize)>,
) -> bool {
    &&& ordered.to_multiset() == participants.to_multiset()
    &&& sorted_ranks(ordered.map_values(rank_fn(standings, seeds)))
}

/// Who advances from each completed match, in the order they completed.
pub open spec fn advancing_view(completed: Seq<(Match, BattleRunReport)>) -> Seq<Option<Seq<char>>> {
    completed.map_values(
        |c: (Match, BattleRunReport)|
            spec_advancing(strings_view(c.0.warrior_ids@), battle_result_view(c.1.result)),
    )
}

/// The name of the bracket kind matches of `strategy` are named after.
pub open spec fn bracket_kind(strategy: ScheduleStrategy) -> Seq<char> {
    match strategy {
        ScheduleStrategy::Swiss { .. } => "swiss"@,
        _ => "elimination"@,
    }
}

fn finish(standings: &Vec<(String, BattleStats)>, played: usize) -> (r: TournamentResult)
    ensures
        final_result(r, standings@, played),
{
    TournamentResult { standings: standings_vec(standings), matches_played: played }
}

/// A tournament that ends before its first round: Swiss of no rounds, or an
/// elimination bracket of at most one warrior.
pub open spec fn ends_at_once(strategy: ScheduleStrategy, warriors: nat) -> bool {
    match strategy {
        ScheduleStrategy::Swiss { rounds } => rounds == 0,
        ScheduleStrategy::Elimination => warriors <= 1,
        ScheduleStrategy::RoundRobin => false,
    }
}

/// Who advances from each completed match (see [`advancing_view`]).
fn advancing_from(completed: &[(Match, BattleRunReport)]) -> (r: Vec<Option<String>>)
    ensures
        options_view(r@) == advancing_view(completed@),
{
    let mut r: Vec<Option<String>> = Vec::new();
    let mut i: usize = 0;
    while i < completed.len()
        invariant
            i <= completed@.len(),
            options_view(r@) == advancing_view(completed@).take(i as int),
        decreases completed@.len() - i,
    {
        let ghost before = r@;
        let a = pick_advancing_warrior(&completed[i].0, &completed[i].1.result);
        r.push(a);
        proof {
            assert(options_view(r@) =~= options_view(before).push(
                advancing_view(completed@)[i as int],
            ));
            assert(advancing_view(completed@).take(i + 1 as int) =~= advancing_view(
                completed@,
            ).take(i as int).push(advancing_view(completed@)[i as int]));
        }
        i = i + 1;
    }
    assert(advancing_view(completed@).take(completed@.len() as int) =~= advancing_view(
        completed@,
    ));
    r
}

impl TournamentState {
    /// A Swiss tournament is within its rounds; an elimination bracket has
    /// begun its first round.
    pub open spec fn wf(&self) -> bool {
        match self.strategy {
            ScheduleStrategy::Swiss { rounds } => 1 <= self.round <= rounds,
            ScheduleStrategy::Elimination => 1 <= self.round,
            ScheduleStrategy::RoundRobin => true,
        }
    }

    /// A tournament of `warriors` (a name entered twice plays once): every
    /// standing at zero, each warrior seeded by the last position it was
    /// entered at. It asks for the first pairing, of all warriors in rank
    /// order, or ends at once: a Swiss tournament of no rounds, an
    /// elimination bracket of at most one warrior.
    pub fn start(strategy: ScheduleStrategy, warriors: &[String]) -> (r: (
        TournamentState,
        TournamentAction,
    ))
        ensures
            r.0.strategy == strategy,
            r.0.matches_played == 0,
            r.0.round == 1,
            r.0.rounds_left@.len() == 0,
            standing_names(r.0.standings@) == dedup(strings_view(warriors@)),
            forall|i: int| 0 <= i < r.0.standings@.len() ==> (#[trigger] r.0.standings@[i]).1
                == crate::battle::zero_stats(),
            r.0.seeds@.len() == warriors@.len(),
            forall|k: int|
                0 <= k < warriors@.len() ==> (#[trigger] r.0.seeds@[k]).0@ == warriors@[warriors@.len()
                    - 1 - k]@ && r.0.seeds@[k].1 == warriors@.len() - 1 - k,
            in_rank_order(
                strings_view(r.0.participants@),
                dedup(strings_view(warriors@)),
                r.0.standings@,
                r.0.seeds@,
            ),
            match r.1 {
                TournamentAction::Finish(res) => ends_at_once(strategy, r.0.participants@.len())
                    && final_result(res, r.0.standings@, 0),
                TournamentAction::Pair { round, participants } => !ends_at_once(
                    strategy,
                    r.0.participants@.len(),
                ) && round == 1 && strings_view(participants@) == strings_view(r.0.participants@)
                    && r.0.wf(),
                TournamentAction::Play(_) => false,
            },
    {
        let names = unique_players(warriors);
        let standings = initialise_standings(names.as_slice());
        let mut seeds: Vec<(String, usize)> = Vec::new();
        let n = warriors.len();
        let mut k: usize = 0;
        while k < n
            invariant
                k <= n,
                n == warriors@.len(),
                seeds@.len() == k,
                forall|j: int|
                    0 <= j < k ==> (#[trigger] seeds@[j]).0@ == warriors@[n - 1 - j]@ && seeds@[j].1
                        == n - 1 - j,
            decreases n - k,
        {
            seeds.push((warriors[n - 1 - k].clone(), n - 1 - k));
            k = k + 1;
        }
        let ordered = ordered_participants(names.as_slice(), &standings, seeds.as_slice());
        let ends = match strategy {
            ScheduleStrategy::Swiss { rounds } => rounds == 0,
            ScheduleStrategy::Elimination => ordered.len() <= 1,
            ScheduleStrategy::RoundRobin => false,
        };
        let action = if ends {
            TournamentAction::Finish(finish(&standings, 0))
        } else {
            TournamentAction::Pair { round: 1, participants: copy_strings(&ordered) }
        };
        let state = TournamentState {
            strategy,
            seeds,
            standings,
            matches_played: 0,
            round: 1,
            participants: ordered,
            rounds_left: Vec::new(),
        };
        (state, action)
    }

    /// Takes the matches scheduled for the pairing asked for. A round robin
    /// groups them by round and asks for the first group to be played (or
    /// ends when there are none); Swiss and elimination rounds name them
    /// after the round and ask for them to be played.
    pub fn matches_scheduled(self, matches: Vec<Match>) -> (r: (TournamentState, TournamentAction))
        ensures
            r.0.strategy == self.strategy,
            r.0.seeds == self.seeds,
            r.0.standings == self.standings,
            r.0.matches_played == self.matches_played,
            r.0.round == self.round,
            r.0.participants == self.participants,
            r.0.wf() == self.wf(),
            self.strategy == ScheduleStrategy::RoundRobin ==> match r.1 {
                TournamentAction::Finish(res) => matches@.len() == 0 && final_result(
                    res,
                    self.standings@,
                    self.matches_played,
                ) && r.0.rounds_left@.len() == 0,
                TournamentAction::Play(g) => matches@.len() > 0 && grouped_by_round(
                    matches_view(matches@),
                    seq![matches_view(g@)] + groups_view(r.0.rounds_left@),
                ),
                TournamentAction::Pair { .. } => false,
            },
            self.strategy != ScheduleStrategy::RoundRobin ==> r.0.rounds_left == self.rounds_left
                && match r.1 {
                TournamentAction::Play(g) => g@.len() == matches@.len() && forall|i: int|
                    0 <= i < g@.len() ==> #[trigger] match_view(g@[i]) == (MatchView {
                        id: match_name(bracket_kind(self.strategy), self.round, i as nat),
                        round: self.round,
                        warriors: strings_view(matches@[i].warrior_ids@),
                    }),
                _ => false,
            },
    {
        let mut st = self;
        match st.strategy {
            ScheduleStrategy::RoundRobin => {
                let mut groups = group_by_round(matches.as_slice());
                let ghost all = groups_view(groups@);
                proof {
                    if matches@.len() > 0 {
                        assert(crate::rounds::has_group(all, matches_view(matches@)[0].round));
                    }
                    if groups@.len() > 0 && matches@.len() == 0 {
                        assert(all[0].len() > 0);
                        assert(matches_view(matches@) =~= Seq::<MatchView>::empty());
                        assert(crate::rounds::in_round(matches_view(matches@), all[0][0].round)
                            =~= Seq::<MatchView>::empty());
                    }
                }
                if groups.len() == 0 {
                    st.rounds_left = groups;
                    let res = finish(&st.standings, st.matches_played);
                    (st, TournamentAction::Finish(res))
                } else {
                    let first = groups.remove(0);
                    proof {
                        assert(seq![matches_view(first@)] + groups_view(groups@) =~= all);
                    }
                    st.rounds_left = groups;
                    (st, TournamentAction::Play(first))
                }
            },
            ScheduleStrategy::Swiss { .. } => {
                let named = number_matches(matches, "swiss", st.round);
                (st, TournamentAction::Play(named))
            },
            ScheduleStrategy::Elimination => {
                let named = number_matches(matches, "elimination", st.round);
                (st, TournamentAction::Play(named))
            },
        }
    }

    /// Takes the reports of the round's matches, in the order they
    /// completed: adds each to the standings (see [`reports_applied`]),
    /// counts the matches played, and decides what comes next. A round robin
    /// plays its next group or ends once every group has been played; a
    /// Swiss tournament asks for the next round's pairing, of the warriors in
    /// rank order by the new standings, or ends after its last round; an
    /// elimination bracket goes on with the bye and the winners, and ends
    /// when at most one warrior is left. `None` when a count would leave
    /// its integer type.
    pub fn round_completed(self, completed: Vec<(Match, BattleRunReport)>) -> (r: Option<
        (TournamentState, TournamentAction),
    >)
        requires
            self.wf(),
            self.strategy == ScheduleStrategy::Elimination ==> self.round < usize::MAX,
        ensures
            r is None <==> !(reports_fit(standings_fn(self.standings@), reports_view(completed@))
                && self.matches_played + completed@.len() <= usize::MAX),
            r matches Some((s, a)) ==> {
                &&& s.wf()
                &&& s.strategy == self.strategy
                &&& s.seeds == self.seeds
                &&& s.matches_played == self.matches_played + completed@.len()
                &&& forall|n: Seq<char>| #[trigger]
                    standing_of(s.standings@, n) == reports_applied(
                        standings_fn(self.standings@),
                        reports_view(completed@),
                    )(n)
                &&& a matches TournamentAction::Finish(res) ==> final_result(
                    res,
                    s.standings@,
                    s.matches_played,
                )
                &&& a matches TournamentAction::Pair { round, participants } ==> round == s.round
                    && strings_view(participants@) == strings_view(s.participants@)
                &&& match self.strategy {
                    ScheduleStrategy::RoundRobin => {
                        &&& s.round == self.round
                        &&& s.participants == self.participants
                        &&& if self.rounds_left@.len() > 0 {
                            &&& a matches TournamentAction::Play(g) && matches_view(g@)
                                == groups_view(self.rounds_left@)[0]
                            &&& groups_view(s.rounds_left@) == groups_view(
                                self.rounds_left@,
                            ).drop_first()
                        } else {
                            &&& a is Finish
                            &&& s.rounds_left@.len() == 0
                        }
                    },
                    ScheduleStrategy::Swiss { rounds } => {
                        &&& s.rounds_left == self.rounds_left
                        &&& if self.round == rounds {
                            &&& a is Finish
                            &&& s.round == self.round
                            &&& s.participants == self.participants
                        } else {
                            &&& a is Pair
                            &&& s.round == self.round + 1
                            &&& in_rank_order(
                                strings_view(s.participants@),
                                strings_view(self.participants@),
                                s.standings@,
                                s.seeds@,
                            )
                        }
                    },
                    ScheduleStrategy::Elimination => {
                        &&& s.rounds_left == self.rounds_left
                        &&& s.round == self.round + 1
                        &&& strings_view(s.participants@) == bye(strings_view(self.participants@))
                            + advancers(advancing_view(completed@))
                        &&& if s.participants@.len() > 1 {
                            a is Pair
                        } else {
                            a is Finish
                        }
                    },
                }
            },
    {
        let mut st = self;
        if !apply_reports(&mut st.standings, completed.as_slice()) {
            return None;
        }
        let played = match st.matches_played.checked_add(completed.len()) {
            Some(p) => p,
            None => {
                return None;
            },
        };
        st.matches_played = played;
        match st.strategy {
            ScheduleStrategy::RoundRobin => {
                if st.rounds_left.len() == 0 {
                    let res = finish(&st.standings, played);
                    Some((st, TournamentAction::Finish(res)))
                } else {
                    let ghost before = st.rounds_left@;
                    let next = st.rounds_left.remove(0);
                    proof {
                        assert(groups_view(st.rounds_left@) =~= groups_view(before).drop_first());
                    }
                    Some((st, TournamentAction::Play(next)))
                }
            },
            ScheduleStrategy::Swiss { rounds } => {
                if st.round >= rounds {
                    let res = finish(&st.standings, played);
                    Some((st, TournamentAction::Finish(res)))
                } else {
                    st.round = st.round + 1;
                    let ordered = ordered_participants(
                        st.participants.as_slice(),
                        &st.standings,
                        st.seeds.as_slice(),
                    );
                    st.participants = ordered;
                    let ask = copy_strings(&st.participants);
                    let round = st.round;
                    Some((st, TournamentAction::Pair { round, participants: ask }))
                }
            },
            ScheduleStrategy::Elimination => {
                let advancing = advancing_from(completed.as_slice());
                let next = next_elimination_round(st.participants.as_slice(), advancing);
                st.participants = next;
                st.round = st.round + 1;
                if st.participants.len() > 1 {
                    let ask = copy_strings(&st.participants);
                    let round = st.round;
                    Some((st, TournamentAction::Pair { round, participants: ask }))
                } else {
                    let res = finish(&st.standings, played);
                    Some((st, TournamentAction::Finish(res)))
                }
            },
        }
    }
}

} // verus!

//! Tournament standings: accumulated statistics per warrior and the order
//! in which warriors are ranked.
//!
//! Warriors rank by score, then wins, then draws (all higher first), then
//! losses (fewer first), then seed (earlier first), then name.
use vstd::prelude::*;

use vstd::multiset::Multiset;

use crate::battle::{
    merge_stats, spec_stats_for_slot, stats_for_slot, zero_stats, BattleStats, Match,
};
use crate::protocol::strings_view;
use crate::symbols::{find_name, lemma_find_name};
use crate::text::{chars_less, chars_of, lemma_lex_order, lex_lt};

verus! {

broadcast use vstd::seq_lib::group_to_multiset_ensures;

/// A warrior together with what it is ranked by.
pub struct Ranked {
    pub name: String,
    pub stats: BattleStats,
    pub seed: usize,
}

pub ghost struct RankView {
    pub name: Seq<char>,
    pub stats: BattleStats,
    pub seed: nat,
}

pub open spec fn rank_view(r: Ranked) -> RankView {
    RankView { name: r.name@, stats: r.stats, seed: r.seed as nat }
}

pub open spec fn ranks_view(v: Seq<Ranked>) -> Seq<RankView> {
    v.map_values(|r: Ranked| rank_view(r))
}

/// `a` ranks strictly ahead of `b`.
pub open spec fn ranked_before(a: RankView, b: RankView) -> bool {
    if a.stats.score != b.stats.score {
        a.stats.score > b.stats.score
    } else if a.stats.wins != b.stats.wins {
        a.stats.wins > b.stats.wins
    } else if a.stats.draws != b.stats.draws {
        a.stats.draws > b.stats.draws
    } else if a.stats.losses != b.stats.losses {
        a.stats.losses < b.stats.losses
    } else if a.seed != b.seed {
        a.seed < b.seed
    } else {
        lex_lt(a.name, b.name)
    }
}

/// No entry ranks strictly ahead of an earlier one.
pub open spec fn sorted_ranks(s: Seq<RankView>) -> bool {
    forall|i: int, j: int| 0 <= i < j < s.len() ==> !ranked_before(#[trigger] s[j], #[trigger] s[i])
}

/// `ranked_before` is a strict weak order: irreflexive, asymmetric, and
/// whatever is behind `b` is behind anything ahead of `b`.
pub proof fn lemma_rank_order(a: RankView, b: RankView, c: RankView)
    ensures
        !ranked_before(a, a),
        ranked_before(a, b) ==> !ranked_before(b, a),
        ranked_before(a, b) && !ranked_before(c, b) ==> ranked_before(a, c),
{
    lemma_lex_order(a.name, b.name, c.name);
    lemma_lex_order(c.name, b.name, a.name);
    lemma_lex_order(b.name, c.name, a.name);
    lemma_lex_order(a.name, c.name, b.name);
    lemma_lex_order(b.name, a.name, c.name);
    lemma_lex_order(c.name, a.name, b.name);
}

/// What a ranking in order means for the statistics: score never rises
/// down the list; among equal scores wins never rise; among equal scores
/// and wins draws never rise; and among equal scores, wins and draws
/// losses never fall, so fewer losses rank ahead.
pub proof fn lemma_sorted_ranks_order(s: Seq<RankView>, i: int, j: int)
    requires
        sorted_ranks(s),
        0 <= i < j < s.len(),
    ensures
        s[i].stats.score >= s[j].stats.score,
        s[i].stats.score == s[j].stats.score ==> s[i].stats.wins >= s[j].stats.wins,
        s[i].stats.score == s[j].stats.score && s[i].stats.wins == s[j].stats.wins
            ==> s[i].stats.draws >= s[j].stats.draws,
        s[i].stats.score == s[j].stats.score && s[i].stats.wins == s[j].stats.wins
            && s[i].stats.draws == s[j].stats.draws ==> s[i].stats.losses <= s[j].stats.losses,
{
    assert(!ranked_before(s[j], s[i]));
}

/// Fewer losses rank strictly ahead when score, wins and draws are equal,
/// whatever the seeds and names.
pub proof fn lemma_fewer_losses_rank_ahead(a: RankView, b: RankView)
    requires
        a.stats.score == b.stats.score,
        a.stats.wins == b.stats.wins,
        a.stats.draws == b.stats.draws,
        a.stats.losses < b.stats.losses,
    ensures
        ranked_before(a, b),
        !ranked_before(b, a),
{
}

/// The order of the tie-breaks: a higher score ranks ahead; on equal
/// scores more wins; then more draws; then fewer losses; then the better
/// (lower) seed; and only on equal seeds the name decides.
pub proof fn lemma_rank_tie_breaks(a: RankView, b: RankView)
    ensures
        a.stats.score > b.stats.score ==> ranked_before(a, b),
        a.stats.score == b.stats.score && a.stats.wins > b.stats.wins ==> ranked_before(a, b),
        a.stats.score == b.stats.score && a.stats.wins == b.stats.wins && a.stats.draws
            > b.stats.draws ==> ranked_before(a, b),
        a.stats.score == b.stats.score && a.stats.wins == b.stats.wins && a.stats.draws
            == b.stats.draws && a.stats.losses < b.stats.losses ==> ranked_before(a, b),
        a.stats.score == b.stats.score && a.stats.wins == b.stats.wins && a.stats.draws
            == b.stats.draws && a.stats.losses == b.stats.losses && a.seed < b.seed
            ==> ranked_before(a, b),
        a.stats.score == b.stats.score && a.stats.wins == b.stats.wins && a.stats.draws
            == b.stats.draws && a.stats.losses == b.stats.losses && a.seed == b.seed ==> (
        ranked_before(a, b) <==> lex_lt(a.name, b.name)),
{
}

fn rank_before(a: &Ranked, b: &Ranked) -> (r: bool)
    ensures
        r == ranked_before(rank_view(*a), rank_view(*b)),
        a.stats.score == b.stats.score && a.stats.wins == b.stats.wins && a.stats.draws
            == b.stats.draws && a.stats.losses < b.stats.losses ==> r,
{
    let x = &a.stats;
    let y = &b.stats;
    if x.score != y.score {
        x.score > y.score
    } else if x.wins != y.wins {
        x.wins > y.wins
    } else if x.draws != y.draws {
        x.draws > y.draws
    } else if x.losses != y.losses {
        x.losses < y.losses
    } else if a.seed != b.seed {
        a.seed < b.seed
    } else {
        let an = chars_of(a.name.as_str());
        let bn = chars_of(b.name.as_str());
        chars_less(an.as_slice(), bn.as_slice())
    }
}

/// Sorts by rank, best first.
pub fn sort_ranked(items: Vec<Ranked>) -> (r: Vec<Ranked>)
    ensures
        sorted_ranks(ranks_view(r@)),
        ranks_view(r@).to_multiset() == ranks_view(items@).to_multiset(),
{
    let ghost initial = ranks_view(items@).to_multiset();
    let mut input = items;
    let mut out: Vec<Ranked> = Vec::new();
    assert(ranks_view(out@) =~= Seq::<RankView>::empty());
    while input.len() > 0
        invariant
            sorted_ranks(ranks_view(out@)),
            ranks_view(input@).to_multiset().add(ranks_view(out@).to_multiset()) == initial,
        decreases input@.len(),
    {
        let ghost before_in = ranks_view(input@);
        let x = input.pop().unwrap();
        assert(before_in =~= ranks_view(input@).push(rank_view(x)));
        let ghost xv = rank_view(x);
        let ghost s = ranks_view(out@);
        let mut p: usize = 0;
        while p < out.len() && !rank_before(&x, &out[p])
            invariant
                p <= out@.len(),
                s == ranks_view(out@),
                xv == rank_view(x),
                forall|k: int| 0 <= k < p ==> !ranked_before(xv, #[trigger] s[k]),
            decreases out@.len() - p,
        {
            p = p + 1;
        }
        proof {
            if p < s.len() {
                assert(ranked_before(xv, s[p as int]));
                assert forall|k: int| p <= k < s.len() implies ranked_before(xv, #[trigger] s[k]) by {
                    if k > p {
                        assert(!ranked_before(s[k], s[p as int]));
                    }
                    lemma_rank_order(xv, s[p as int], s[k]);
                }
            }
        }
        out.insert(p, x);
        let ghost t = ranks_view(out@);
        assert(t =~= s.insert(p as int, xv));
        proof {
            assert forall|i: int, j: int| 0 <= i < j < t.len() implies !ranked_before(
                #[trigger] t[j],
                #[trigger] t[i],
            ) by {
                if j < p {
                    assert(t[i] == s[i] && t[j] == s[j]);
                } else if j == p {
                    assert(t[i] == s[i]);
                } else if i == p {
                    assert(t[j] == s[j - 1]);
                    lemma_rank_order(xv, s[j - 1], xv);
                } else if i < p {
                    assert(t[i] == s[i] && t[j] == s[j - 1]);
                } else {
                    assert(t[i] == s[i - 1] && t[j] == s[j - 1]);
                }
            }
        }
    }
    assert(ranks_view(input@) =~= Seq::<RankView>::empty());
    assert(ranks_view(input@).to_multiset() =~= Multiset::<RankView>::empty());
    out
}

// ---------------------------------------------------------------------------
// Standings
// ---------------------------------------------------------------------------

pub open spec fn standing_names(st: Seq<(String, BattleStats)>) -> Seq<Seq<char>> {
    st.map_values(|e: (String, BattleStats)| e.0@)
}

/// The statistics recorded for `name`; zeros when there are none.
pub open spec fn standing_of(st: Seq<(String, BattleStats)>, name: Seq<char>) -> BattleStats {
    match find_name(standing_names(st), name) {
        Some(i) => st[i as int].1,
        None => zero_stats(),
    }
}

/// The seed of `name`; `usize::MAX` when it has none.
pub open spec fn seed_of(seeds: Seq<(String, usize)>, name: Seq<char>) -> nat {
    match find_name(seeds.map_values(|e: (String, usize)| e.0@), name) {
        Some(i) => seeds[i as int].1 as nat,
        None => usize::MAX as nat,
    }
}

/// Zero statistics for each of `names` (assumed distinct), in order.
pub fn initialise_standings(names: &[String]) -> (r: Vec<(String, BattleStats)>)
    ensures
        standing_names(r@) == strings_view(names@),
        forall|i: int| 0 <= i < r@.len() ==> (#[trigger] r@[i]).1 == zero_stats(),
{
    let mut r: Vec<(String, BattleStats)> = Vec::new();
    let mut i: usize = 0;
    while i < names.len()
        invariant
            i <= names@.len(),
            standing_names(r@) == strings_view(names@).take(i as int),
            forall|j: int| 0 <= j < r@.len() ==> (#[trigger] r@[j]).1 == zero_stats(),
        decreases names@.len() - i,
    {
        let ghost before = r@;
        let name = names[i].clone();
        assert(name@ == names@[i as int]@);
        r.push((name, BattleStats::default()));
        assert(standing_names(r@) =~= standing_names(before).push(names@[i as int]@));
        assert(strings_view(names@).take(i + 1 as int) =~= strings_view(names@).take(i as int).push(
            names@[i as int]@,
        ));
        i = i + 1;
    }
    assert(strings_view(names@).take(names@.len() as int) =~= strings_view(names@));
    r
}

fn find_entry(st: &Vec<(String, BattleStats)>, name: &String) -> (r: Option<usize>)
    ensures
        match r {
            Some(i) => find_name(standing_names(st@), name@) == Some(i as nat),
            None => find_name(standing_names(st@), name@) is None,
        },
{
    let mut i: usize = 0;
    while i < st.len()
        invariant
            i <= st@.len(),
            forall|j: int| 0 <= j < i ==> standing_names(st@)[j] != name@,
        decreases st@.len() - i,
    {
        if st[i].0 == *name {
            proof {
                lemma_find_name(standing_names(st@), name@);
                assert(standing_names(st@)[i as int] == name@);
                if let Some(k) = find_name(standing_names(st@), name@) {
                    if k < i {
                        assert(standing_names(st@)[k as int] != name@);
                    }
                }
            }
            return Some(i);
        }
        i = i + 1;
    }
    proof {
        lemma_find_name(standing_names(st@), name@);
    }
    None
}

/// The statistics recorded for `name` (see [`standing_of`]).
pub fn standing_for(st: &Vec<(String, BattleStats)>, name: &String) -> (r: BattleStats)
    ensures
        r == standing_of(st@, name@),
{
    match find_entry(st, name) {
        Some(i) => {
            proof {
                lemma_find_name(standing_names(st@), name@);
            }
            st[i].1
        },
        None => BattleStats::default(),
    }
}

fn seed_for(seeds: &[(String, usize)], name: &String) -> (r: usize)
    ensures
        r == seed_of(seeds@, name@),
{
    let ghost names = seeds@.map_values(|e: (String, usize)| e.0@);
    let mut i: usize = 0;
    while i < seeds.len()
        invariant
            i <= seeds@.len(),
            names == seeds@.map_values(|e: (String, usize)| e.0@),
            forall|j: int| 0 <= j < i ==> names[j] != name@,
        decreases seeds@.len() - i,
    {
        if seeds[i].0 == *name {
            proof {
                lemma_find_name(names, name@);
                assert(names[i as int] == name@);
                if let Some(k) = find_name(names, name@) {
                    if k < i {
                        assert(names[k as int] != name@);
                    }
                }
            }
            return seeds[i].1;
        }
        i = i + 1;
    }
    proof {
        lemma_find_name(names, name@);
    }
    usize::MAX
}

/// Whether every count of `total` plus `delta` fits in `u64`.
pub open spec fn can_merge(total: BattleStats, delta: BattleStats) -> bool {
    &&& total.wins + delta.wins <= u64::MAX
    &&& total.losses + delta.losses <= u64::MAX
    &&& total.draws + delta.draws <= u64::MAX
    &&& total.score + delta.score <= u64::MAX
    &&& total.processes_created + delta.processes_created <= u64::MAX
    &&& total.instructions_executed + delta.instructions_executed <= u64::MAX
}

/// See [`can_merge`].
pub fn merge_fits(total: &BattleStats, delta: &BattleStats) -> (b: bool)
    ensures
        b == can_merge(*total, *delta),
{
    total.wins.checked_add(delta.wins).is_some() && total.losses.checked_add(delta.losses).is_some()
        && total.draws.checked_add(delta.draws).is_some() && total.score.checked_add(
        delta.score,
    ).is_some() && total.processes_created.checked_add(delta.processes_created).is_some()
        && total.instructions_executed.checked_add(delta.instructions_executed).is_some()
}

pub open spec fn merged(total: BattleStats, delta: BattleStats) -> BattleStats {
    BattleStats {
        warrior_id: total.warrior_id,
        wins: (total.wins + delta.wins) as u64,
        losses: (total.losses + delta.losses) as u64,
        draws: (total.draws + delta.draws) as u64,
        score: (total.score + delta.score) as u64,
        processes_created: (total.processes_created + delta.processes_created) as u64,
        instructions_executed: (total.instructions_executed + delta.instructions_executed) as u64,
    }
}

/// Adds `delta` to the standing of `name`, which starts from zeros when it
/// has none.
pub fn record_standing(st: &mut Vec<(String, BattleStats)>, name: &String, delta: &BattleStats)
    requires
        can_merge(standing_of(old(st)@, name@), *delta),
    ensures
        forall|n: Seq<char>| #[trigger]
            standing_of(final(st)@, n) == if n == name@ {
                merged(standing_of(old(st)@, n), *delta)
            } else {
                standing_of(old(st)@, n)
            },
        forall|n: Seq<char>| #[trigger]
            (find_name(standing_names(final(st)@), n) is Some) == (find_name(
                standing_names(old(st)@),
                n,
            ) is Some || n == name@),
{
    let ghost old_names = standing_names(st@);
    let ghost old_st = st@;
    proof {
        lemma_find_name(old_names, name@);
    }
    let i = match find_entry(st, name) {
        Some(i) => i,
        None => {
            st.push((name.clone(), BattleStats::default()));
            assert(standing_names(st@).drop_last() =~= old_names);
            st.len() - 1
        },
    };
    let ghost mid = st@;
    let ghost mid_names = standing_names(st@);
    proof {
        lemma_find_name(mid_names, name@);
    }
    assert(find_name(mid_names, name@) == Some(i as nat));
    let mut entry = st[i].1;
    merge_stats(&mut entry, delta);
    let key = st[i].0.clone();
    st.set(i, (key, entry));
    assert(standing_names(st@) =~= mid_names);
    proof {
        assert forall|n: Seq<char>| #[trigger]
            standing_of(st@, n) == if n == name@ {
                merged(standing_of(old_st, n), *delta)
            } else {
                standing_of(old_st, n)
            } by {
            lemma_find_name(old_names, n);
            lemma_find_name(mid_names, n);
            if let Some(j) = find_name(mid_names, n) {
                if j != i {
                    assert(st@[j as int] == mid[j as int]);
                    if j < old_st.len() {
                        assert(mid[j as int] == old_st[j as int]);
                        assert(old_names[j as int] == mid_names[j as int]);
                    }
                }
            }
        }
    }
}

/// The standing of `name` once a match report is added: slot `k`'s
/// statistics go to the match's `k`-th warrior, slot by slot.
pub open spec fn standing_after_report(
    st: Seq<(String, BattleStats)>,
    names: Seq<Seq<char>>,
    stats: Seq<BattleStats>,
    name: Seq<char>,
) -> BattleStats
    decreases names.len(),
{
    if names.len() == 0 {
        standing_of(st, name)
    } else {
        let before = standing_after_report(st, names.drop_last(), stats, name);
        if names.last() == name {
            merged(before, spec_stats_for_slot(stats, (names.len() - 1) as nat))
        } else {
            before
        }
    }
}

/// Every addition of a match report stays within `u64`.
pub open spec fn report_fits(
    st: Seq<(String, BattleStats)>,
    names: Seq<Seq<char>>,
    stats: Seq<BattleStats>,
) -> bool
    decreases names.len(),
{
    names.len() == 0 || (report_fits(st, names.drop_last(), stats) && can_merge(
        standing_after_report(st, names.drop_last(), stats, names.last()),
        spec_stats_for_slot(stats, (names.len() - 1) as nat),
    ))
}

proof fn lemma_report_fits_prefix(
    st: Seq<(String, BattleStats)>,
    names: Seq<Seq<char>>,
    stats: Seq<BattleStats>,
    k: int,
)
    requires
        report_fits(st, names, stats),
        0 <= k <= names.len(),
    ensures
        report_fits(st, names.take(k), stats),
    decreases names.len() - k,
{
    if k < names.len() {
        assert(names.drop_last().take(k) =~= names.take(k));
        lemma_report_fits_prefix(st, names.drop_last(), stats, k);
    } else {
        assert(names.take(k) =~= names);
    }
}

/// Adds a match report to the standings (see [`standing_after_report`]).
pub fn apply_match_report(
    standings: &mut Vec<(String, BattleStats)>,
    scheduled_match: &Match,
    stats: &[BattleStats],
)
    requires
        report_fits(old(standings)@, strings_view(scheduled_match.warrior_ids@), stats@),
    ensures
        forall|n: Seq<char>| #[trigger]
            standing_of(final(standings)@, n) == standing_after_report(
                old(standings)@,
                strings_view(scheduled_match.warrior_ids@),
                stats@,
                n,
            ),
{
    let ghost names = strings_view(scheduled_match.warrior_ids@);
    let ghost start = standings@;
    let mut k: usize = 0;
    assert(names.take(0) =~= Seq::<Seq<char>>::empty());
    while k < scheduled_match.warrior_ids.len()
        invariant
            k <= names.len(),
            names == strings_view(scheduled_match.warrior_ids@),
            start == old(standings)@,
            report_fits(start, names, stats@),
            forall|n: Seq<char>| #[trigger]
                standing_of(standings@, n) == standing_after_report(
                    start,
                    names.take(k as int),
                    stats@,
                    n,
                ),
        decreases names.len() - k,
    {
        let delta = stats_for_slot(stats, k);
        let name = &scheduled_match.warrior_ids[k];
        proof {
            lemma_report_fits_prefix(start, names, stats@, k + 1);
            assert(names.take(k + 1 as int).drop_last() =~= names.take(k as int));
            assert(names.take(k + 1 as int).last() == name@);
        }
        record_standing(standings, name, &delta);
        k = k + 1;
    }
    assert(names.take(names.len() as int) =~= names);
}

/// What `name` is ranked by.
pub open spec fn rank_of(
    standings: Seq<(String, BattleStats)>,
    seeds: Seq<(String, usize)>,
    name: Seq<char>,
) -> RankView {
    RankView { name, stats: standing_of(standings, name), seed: seed_of(seeds, name) }
}

pub open spec fn rank_fn(standings: Seq<(String, BattleStats)>, seeds: Seq<(String, usize)>) -> spec_fn(
    Seq<char>,
) -> RankView {
    |n: Seq<char>| rank_of(standings, seeds, n)
}

pub open spec fn name_fn() -> spec_fn(RankView) -> Seq<char> {
    |v: RankView| v.name
}

/// The warriors of `participants` in rank order, by their standings and
/// seeds.
pub fn ordered_participants(
    participants: &[String],
    standings: &Vec<(String, BattleStats)>,
    seed_order: &[(String, usize)],
) -> (r: Vec<String>)
    ensures
        strings_view(r@).to_multiset() == strings_view(participants@).to_multiset(),
        sorted_ranks(strings_view(r@).map_values(rank_fn(standings@, seed_order@))),
{
    let ghost f = rank_fn(standings@, seed_order@);
    let ghost pv = strings_view(participants@);
    let mut items: Vec<Ranked> = Vec::new();
    let mut i: usize = 0;
    while i < participants.len()
        invariant
            i <= participants@.len(),
            f == rank_fn(standings@, seed_order@),
            pv == strings_view(participants@),
            ranks_view(items@) == pv.take(i as int).map_values(f),
        decreases participants@.len() - i,
    {
        let name = participants[i].clone();
        let stats = standing_for(standings, &name);
        let seed = seed_for(seed_order, &name);
        let ghost before = items@;
        let item = Ranked { name, stats, seed };
        assert(rank_view(item) == f(pv[i as int]));
        items.push(item);
        assert(ranks_view(items@) =~= ranks_view(before).push(rank_view(item)));
        assert(pv.take(i + 1 as int) =~= pv.take(i as int).push(pv[i as int]));
        assert(pv.take(i + 1 as int).map_values(f) =~= pv.take(i as int).map_values(f).push(
            f(pv[i as int]),
        ));
        i = i + 1;
    }
    assert(pv.take(participants@.len() as int) =~= pv);
    let ghost in_ranks = ranks_view(items@);
    let sorted = sort_ranked(items);
    let ghost sr = ranks_view(sorted@);
    let ghost g = name_fn();
    let mut out: Vec<String> = Vec::new();
    let mut k: usize = 0;
    while k < sorted.len()
        invariant
            k <= sorted@.len(),
            sr == ranks_view(sorted@),
            g == name_fn(),
            strings_view(out@) == sr.take(k as int).map_values(g),
        decreases sorted@.len() - k,
    {
        let ghost before = out@;
        let name = sorted[k].name.clone();
        out.push(name);
        assert(strings_view(out@) =~= strings_view(before).push(sr[k as int].name));
        assert(sr.take(k + 1 as int).map_values(g) =~= sr.take(k as int).map_values(g).push(
            g(sr[k as int]),
        ));
        k = k + 1;
    }
    assert(sr.take(sorted@.len() as int) =~= sr);
    proof {
        assert forall|m: int| 0 <= m < sr.len() implies #[trigger] sr[m] == f(sr[m].name) by {
            assert(in_ranks.to_multiset().count(sr[m]) > 0);
            assert(in_ranks.contains(sr[m]));
            let q = choose|q: int| 0 <= q < in_ranks.len() && in_ranks[q] == sr[m];
            assert(in_ranks[q] == f(pv[q]));
        }
        let names_sorted = sr.map_values(g);
        assert(strings_view(out@) =~= names_sorted);
        assert(in_ranks =~= pv.map_values(f));
        assert(names_sorted.map_values(f) =~= sr);
        lemma_map_values_multiset(names_sorted, pv, f);
    }
    out
}

/// When `f` is one-to-one on names, equal multisets of images mean equal
/// multisets of names.
proof fn lemma_map_values_multiset(
    a: Seq<Seq<char>>,
    b: Seq<Seq<char>>,
    f: spec_fn(Seq<char>) -> RankView,
)
    requires
        forall|x: Seq<char>| (#[trigger] f(x)).name == x,
        a.map_values(f).to_multiset() == b.map_values(f).to_multiset(),
    ensures
        a.to_multiset() == b.to_multiset(),
    decreases a.len(),
{
    broadcast use vstd::multiset::group_multiset_axioms;

    if a.len() == 0 {
        assert(a.map_values(f) =~= Seq::<RankView>::empty());
        assert(b.map_values(f).to_multiset().len() == 0);
        assert(b.len() == 0);
        assert(b =~= Seq::<Seq<char>>::empty());
    } else {
        let x = a.last();
        assert(a.map_values(f) =~= a.drop_last().map_values(f).push(f(x)));
        assert(b.map_values(f).to_multiset().count(f(x)) > 0);
        assert(b.map_values(f).contains(f(x)));
        let q = choose|q: int| 0 <= q < b.len() && b.map_values(f)[q] == f(x);
        assert(b[q] == x);
        let b2 = b.remove(q);
        assert(b2.map_values(f) =~= b.map_values(f).remove(q));
        assert(a.map_values(f).to_multiset() == a.drop_last().map_values(f).to_multiset().insert(
            f(x),
        ));
        assert(b2.map_values(f).to_multiset() == b.map_values(f).to_multiset().remove(f(x)));
        assert(a.drop_last().map_values(f).to_multiset() =~= b2.map_values(f).to_multiset());
        lemma_map_values_multiset(a.drop_last(), b2, f);
        assert(b.to_multiset() == b2.to_multiset().insert(x)) by {
            assert(b2.to_multiset() == b.to_multiset().remove(b[q]));
            assert(b.to_multiset().count(x) > 0) by {
                assert(b.contains(x));
            }
            assert(b2.to_multiset().insert(x) =~= b.to_multiset());
        }
        assert(a =~= a.drop_last().push(x));
    }
}

/// A standing as a rank with no seed.
pub open spec fn standing_view_fn() -> spec_fn((String, BattleStats)) -> RankView {
    |e: (String, BattleStats)| RankView { name: e.0@, stats: e.1, seed: 0 }
}

/// The standings, best first.
pub fn standings_vec(standings: &Vec<(String, BattleStats)>) -> (r: Vec<(String, BattleStats)>)
    ensures
        r@.map_values(standing_view_fn()).to_multiset() == standings@.map_values(
            standing_view_fn(),
        ).to_multiset(),
        sorted_ranks(r@.map_values(standing_view_fn())),
{
    let ghost view_of = standing_view_fn();
    let mut items: Vec<Ranked> = Vec::new();
    let mut i: usize = 0;
    while i < standings.len()
        invariant
            i <= standings@.len(),
            view_of == standing_view_fn(),
            ranks_view(items@) == standings@.take(i as int).map_values(view_of),
        decreases standings@.len() - i,
    {
        let ghost before = items@;
        let item = Ranked { name: standings[i].0.clone(), stats: standings[i].1, seed: 0 };
        assert(rank_view(item) == view_of(standings@[i as int]));
        items.push(item);
        assert(ranks_view(items@) =~= ranks_view(before).push(rank_view(item)));
        assert(standings@.take(i + 1 as int).map_values(view_of) =~= standings@.take(
            i as int,
        ).map_values(view_of).push(view_of(standings@[i as int])));
        i = i + 1;
    }
    assert(standings@.take(standings@.len() as int) =~= standings@);
    let ghost in_ranks = ranks_view(items@);
    let sorted = sort_ranked(items);
    let ghost sr = ranks_view(sorted@);
    proof {
        assert forall|m: int| 0 <= m < sr.len() implies (#[trigger] sr[m]).seed == 0 by {
            assert(in_ranks.to_multiset().count(sr[m]) > 0);
            assert(in_ranks.contains(sr[m]));
            let q = choose|q: int| 0 <= q < in_ranks.len() && in_ranks[q] == sr[m];
            assert(in_ranks[q] == view_of(standings@[q]));
        }
    }
    let mut out: Vec<(String, BattleStats)> = Vec::new();
    let mut k: usize = 0;
    while k < sorted.len()
        invariant
            k <= sorted@.len(),
            sr == ranks_view(sorted@),
            view_of == standing_view_fn(),
            out@.map_values(view_of) == sr.take(k as int),
            forall|m: int| 0 <= m < sr.len() ==> (#[trigger] sr[m]).seed == 0,
        decreases sorted@.len() - k,
    {
        let ghost before = out@;
        let e = (sorted[k].name.clone(), sorted[k].stats);
        assert(view_of(e) == sr[k as int]);
        out.push(e);
        assert(out@.map_values(view_of) =~= before.map_values(view_of).push(view_of(e)));
        assert(sr.take(k + 1 as int) =~= sr.take(k as int).push(sr[k as int]));
        k = k + 1;
    }
    assert(sr.take(sorted@.len() as int) =~= sr);
    out
}

} // verus!

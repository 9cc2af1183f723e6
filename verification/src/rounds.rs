//! How a tournament walks through its rounds: scheduled matches grouped
//! by round, matches renamed after their round, and who goes on to the next
//! round of an elimination bracket.
use vstd::prelude::*;

use crate::battle::Match;
use crate::protocol::{copy_strings, strings_view};
use crate::text::{chars_of, decimal, decimal_chars, string_of};

verus! {

/// The mathematical value of a [`Match`].
pub ghost struct MatchView {
    pub id: Seq<char>,
    pub round: usize,
    pub warriors: Seq<Seq<char>>,
}

pub open spec fn match_view(m: Match) -> MatchView {
    MatchView { id: m.id@, round: m.round, warriors: strings_view(m.warrior_ids@) }
}

pub open spec fn matches_view(v: Seq<Match>) -> Seq<MatchView> {
    v.map_values(|m: Match| match_view(m))
}

/// The matches of `round`, in schedule order.
pub open spec fn in_round(ms: Seq<MatchView>, round: usize) -> Seq<MatchView> {
    ms.filter(|m: MatchView| m.round == round)
}

/// Every group holds at least one match.
pub open spec fn groups_nonempty(groups: Seq<Seq<MatchView>>) -> bool {
    forall|g: int| 0 <= g < groups.len() ==> #[trigger] groups[g].len() > 0
}

/// The groups' rounds strictly ascend.
pub open spec fn rounds_ascend(groups: Seq<Seq<MatchView>>) -> bool {
    forall|g: int, h: int|
        0 <= g < h < groups.len() ==> (#[trigger] groups[g])[0].round < (#[trigger] groups[h])[0].round
}

/// Each group is exactly the matches of its round, in schedule order.
pub open spec fn groups_exact(ms: Seq<MatchView>, groups: Seq<Seq<MatchView>>) -> bool {
    forall|g: int| 0 <= g < groups.len() ==> #[trigger] groups[g] == in_round(ms, groups[g][0].round)
}

/// Every match's round has a group.
pub open spec fn rounds_covered(ms: Seq<MatchView>, groups: Seq<Seq<MatchView>>) -> bool {
    forall|i: int| 0 <= i < ms.len() ==> #[trigger] has_group(groups, ms[i].round)
}

/// Some group holds the matches of `round`.
pub open spec fn has_group(groups: Seq<Seq<MatchView>>, round: usize) -> bool {
    exists|g: int| 0 <= g < groups.len() && groups[g][0].round == round
}

/// `groups` holds the matches of `ms` round by round, rounds ascending and
/// each round's matches in schedule order.
pub open spec fn grouped_by_round(ms: Seq<MatchView>, groups: Seq<Seq<MatchView>>) -> bool {
    &&& groups_nonempty(groups)
    &&& rounds_ascend(groups)
    &&& groups_exact(ms, groups)
    &&& rounds_covered(ms, groups)
}

fn copy_match(m: &Match) -> (r: Match)
    ensures
        match_view(r) == match_view(*m),
{
    Match { id: m.id.clone(), round: m.round, warrior_ids: copy_strings(&m.warrior_ids) }
}

/// The scheduled matches grouped by round (see [`grouped_by_round`]).
pub fn group_by_round(matches: &[Match]) -> (groups: Vec<Vec<Match>>)
    ensures
        grouped_by_round(matches_view(matches@), groups@.map_values(|g: Vec<Match>| matches_view(g@))),
{
    let ghost all = matches_view(matches@);
    let mut groups: Vec<Vec<Match>> = Vec::new();
    let mut i: usize = 0;
    while i < matches.len()
        invariant
            i <= matches@.len(),
            all == matches_view(matches@),
            grouped_by_round(all.take(i as int), groups@.map_values(|g: Vec<Match>| matches_view(g@))),
        decreases matches@.len() - i,
    {
        let ghost prefix = all.take(i as int);
        let ghost next = all.take(i + 1 as int);
        let ghost gv = groups@.map_values(|g: Vec<Match>| matches_view(g@));
        let ghost mv = match_view(matches@[i as int]);
        assert(next =~= prefix.push(mv));
        let round = matches[i].round;
        assert forall|q: int| 0 <= q < groups@.len() implies (#[trigger] groups@[q])@.len() > 0 by {
            assert(gv[q].len() > 0);
            assert(gv[q] == matches_view(groups@[q]@));
        }
        // Find the first group whose round is not below this match's.
        let mut p: usize = 0;
        while p < groups.len() && groups[p][0].round < round
            invariant
                p <= groups@.len(),
                gv == groups@.map_values(|g: Vec<Match>| matches_view(g@)),
                grouped_by_round(prefix, gv),
                forall|q: int| 0 <= q < groups@.len() ==> (#[trigger] groups@[q])@.len() > 0,
                forall|q: int| 0 <= q < p ==> (#[trigger] gv[q])[0].round < round,
            decreases groups@.len() - p,
        {
            assert(gv[p as int].len() > 0);
            assert(gv[p as int][0].round == groups@[p as int]@[0].round);
            p = p + 1;
        }
        let copy = copy_match(&matches[i]);
        let ghost g0 = groups@;
        if p < groups.len() && groups[p][0].round == round {
            proof {
                assert(gv[p as int][0].round == round);
            }
            let mut group = groups.remove(p);
            let ghost old_group = group@;
            group.push(copy);
            groups.insert(p, group);
            proof {
                assert(groups@ =~= g0.update(p as int, group));
                assert(matches_view(group@) =~= matches_view(old_group).push(mv));
                assert(groups@.map_values(|g: Vec<Match>| matches_view(g@)) =~= gv.update(
                    p as int,
                    gv[p as int].push(mv),
                ));
            }
        } else {
            let mut group: Vec<Match> = Vec::new();
            group.push(copy);
            groups.insert(p, group);
            proof {
                assert(matches_view(group@) =~= seq![mv]);
                assert(groups@.map_values(|g: Vec<Match>| matches_view(g@)) =~= gv.insert(
                    p as int,
                    seq![mv],
                ));
            }
        }
        proof {
            let hv = groups@.map_values(|g: Vec<Match>| matches_view(g@));
            lemma_group_step(prefix, mv, gv, hv, p as int);
        }
        i = i + 1;
    }
    assert(all.take(matches@.len() as int) =~= all);
    groups
}

/// Adding match `m` to its round's group, or as a new group at `p`, keeps
/// the grouping exact.
proof fn lemma_group_step(
    prefix: Seq<MatchView>,
    m: MatchView,
    gv: Seq<Seq<MatchView>>,
    hv: Seq<Seq<MatchView>>,
    p: int,
)
    requires
        grouped_by_round(prefix, gv),
        0 <= p <= gv.len(),
        forall|q: int| 0 <= q < p ==> (#[trigger] gv[q])[0].round < m.round,
        p < gv.len() ==> gv[p][0].round >= m.round,
        p < gv.len() && gv[p][0].round == m.round ==> hv == gv.update(p, gv[p].push(m)),
        !(p < gv.len() && gv[p][0].round == m.round) ==> hv == gv.insert(p, seq![m]),
    ensures
        grouped_by_round(prefix.push(m), hv),
{
    let next = prefix.push(m);
    assert forall|r: usize| #[trigger] in_round(next, r) == if r == m.round {
        in_round(prefix, r).push(m)
    } else {
        in_round(prefix, r)
    } by {
        assert(next.drop_last() =~= prefix);
        reveal(Seq::filter);
    }
    if p < gv.len() && gv[p][0].round == m.round {
        assert forall|g: int| 0 <= g < hv.len() implies #[trigger] hv[g] == in_round(
            next,
            hv[g][0].round,
        ) by {
            if g == p {
                assert(hv[g][0] == gv[p][0]);
            } else {
                assert(hv[g] == gv[g]);
                assert(gv[g][0].round != m.round);
            }
        }
        assert forall|g: int, h: int| 0 <= g < h < hv.len() implies (#[trigger] hv[g])[0].round
            < (#[trigger] hv[h])[0].round by {
            assert(hv[g][0] == gv[g][0]);
            assert(hv[h][0] == gv[h][0]);
        }
        assert forall|i: int| 0 <= i < next.len() implies #[trigger] has_group(hv, next[i].round) by {
            if i < prefix.len() {
                assert(next[i] == prefix[i]);
                assert(has_group(gv, prefix[i].round));
                let g = choose|g: int| 0 <= g < gv.len() && gv[g][0].round == prefix[i].round;
                assert(hv[g][0] == gv[g][0]);
            } else {
                assert(next[i] == m);
                assert(hv[p][0] == gv[p][0]);
            }
        }
        assert forall|g: int| 0 <= g < hv.len() implies #[trigger] hv[g].len() > 0 by {
            if g != p {
                assert(hv[g] == gv[g]);
            }
        }
    } else {
        assert(in_round(prefix, m.round).len() == 0) by {
            if in_round(prefix, m.round).len() > 0 {
                let x = in_round(prefix, m.round)[0];
                assert(in_round(prefix, m.round).contains(x));
                assert(prefix.contains(x)) by {
                    prefix.lemma_filter_contains_rev(|v: MatchView| v.round == m.round, x);
                }
                let i = choose|i: int| 0 <= i < prefix.len() && prefix[i] == x;
                assert(has_group(gv, prefix[i].round));
                let g = choose|g: int| 0 <= g < gv.len() && gv[g][0].round == prefix[i].round;
                if g < p {
                } else if g == p {
                } else {
                    assert(gv[g][0].round > gv[p][0].round);
                }
            }
        }
        assert(in_round(prefix, m.round) =~= Seq::<MatchView>::empty());
        assert forall|g: int| 0 <= g < hv.len() implies #[trigger] hv[g] == in_round(
            next,
            hv[g][0].round,
        ) by {
            if g < p {
                assert(hv[g] == gv[g]);
            } else if g == p {
                assert(hv[g] =~= seq![m]);
                assert(in_round(next, m.round) =~= seq![m]);
            } else {
                assert(hv[g] == gv[g - 1]);
                assert(gv[g - 1][0].round != m.round);
            }
        }
        assert forall|g: int, h: int| 0 <= g < h < hv.len() implies (#[trigger] hv[g])[0].round
            < (#[trigger] hv[h])[0].round by {
            if h < p {
                assert(hv[g] == gv[g] && hv[h] == gv[h]);
            } else if h == p {
                assert(hv[g] == gv[g]);
            } else if g == p {
                assert(hv[h] == gv[h - 1]);
                assert(gv[h - 1][0].round >= gv[p][0].round);
            } else if g < p {
                assert(hv[g] == gv[g] && hv[h] == gv[h - 1]);
                if h - 1 > g {
                }
            } else {
                assert(hv[g] == gv[g - 1] && hv[h] == gv[h - 1]);
            }
        }
        assert forall|i: int| 0 <= i < next.len() implies #[trigger] has_group(hv, next[i].round) by {
            if i < prefix.len() {
                assert(next[i] == prefix[i]);
                assert(has_group(gv, prefix[i].round));
                let g = choose|g: int| 0 <= g < gv.len() && gv[g][0].round == prefix[i].round;
                if g < p {
                    assert(hv[g] == gv[g]);
                } else {
                    assert(hv[g + 1] == gv[g]);
                }
            } else {
                assert(next[i] == m);
                assert(hv[p][0] == m);
            }
        }
        assert forall|g: int| 0 <= g < hv.len() implies #[trigger] hv[g].len() > 0 by {
            if g < p {
                assert(hv[g] == gv[g]);
            } else if g > p {
                assert(hv[g] == gv[g - 1]);
            }
        }
    }
}

/// The id of the `index`-th match (from 0) of `round` in a bracket of
/// `kind`: `<kind>-r<round>-m<index + 1>`.
pub open spec fn match_name(kind: Seq<char>, round: usize, index: nat) -> Seq<char> {
    kind + "-r"@ + decimal(round as nat) + "-m"@ + decimal(index + 1)
}

/// The matches renamed after `round` in a bracket of `kind` and moved to
/// that round, in order.
pub fn number_matches(matches: Vec<Match>, kind: &str, round: usize) -> (r: Vec<Match>)
    ensures
        r@.len() == matches@.len(),
        forall|i: int|
            0 <= i < r@.len() ==> #[trigger] match_view(r@[i]) == (MatchView {
                id: match_name(kind@, round, i as nat),
                round,
                warriors: strings_view(matches@[i].warrior_ids@),
            }),
{
    let mut r: Vec<Match> = Vec::new();
    let mut i: usize = 0;
    while i < matches.len()
        invariant
            i <= matches@.len(),
            r@.len() == i,
            forall|j: int|
                0 <= j < i ==> #[trigger] match_view(r@[j]) == (MatchView {
                    id: match_name(kind@, round, j as nat),
                    round,
                    warriors: strings_view(matches@[j].warrior_ids@),
                }),
        decreases matches@.len() - i,
    {
        let mut text = chars_of(kind);
        let mut r_part = chars_of("-r");
        let mut round_digits = decimal_chars(round as u64);
        let mut m_part = chars_of("-m");
        let mut index_digits = decimal_chars((i + 1) as u64);
        text.append(&mut r_part);
        text.append(&mut round_digits);
        text.append(&mut m_part);
        text.append(&mut index_digits);
        let id = string_of(text.as_slice());
        r.push(Match { id, round, warrior_ids: copy_strings(&matches[i].warrior_ids) });
        i = i + 1;
    }
    r
}

/// The warrior sitting out a round of an elimination bracket: the last
/// one when their number is odd.
pub open spec fn bye(participants: Seq<Seq<char>>) -> Seq<Seq<char>> {
    if participants.len() % 2 == 1 {
        seq![participants.last()]
    } else {
        Seq::empty()
    }
}

/// The names the advancing results hold, in order.
pub open spec fn advancers(advancing: Seq<Option<Seq<char>>>) -> Seq<Seq<char>>
    decreases advancing.len(),
{
    if advancing.len() == 0 {
        Seq::empty()
    } else {
        let before = advancers(advancing.drop_last());
        match advancing.last() {
            Some(n) => before.push(n),
            None => before,
        }
    }
}

pub open spec fn options_view(v: Seq<Option<String>>) -> Seq<Option<Seq<char>>> {
    v.map_values(
        |o: Option<String>|
            match o {
                Some(s) => Some(s@),
                None => None,
            },
    )
}

/// Who plays the next round of an elimination bracket: the warrior with a
/// bye, then the winners of this round's matches in the order they
/// finished (a match nobody advances from adds no one).
pub fn next_elimination_round(participants: &[String], advancing: Vec<Option<String>>) -> (r: Vec<
    String,
>)
    ensures
        strings_view(r@) == bye(strings_view(participants@)) + advancers(options_view(advancing@)),
{
    let mut r: Vec<String> = Vec::new();
    let n = participants.len();
    if n % 2 == 1 {
        r.push(participants[n - 1].clone());
    }
    assert(strings_view(r@) =~= bye(strings_view(participants@)));
    let ghost start = strings_view(r@);
    let ghost av = options_view(advancing@);
    let mut i: usize = 0;
    while i < advancing.len()
        invariant
            i <= advancing@.len(),
            av == options_view(advancing@),
            strings_view(r@) == start + advancers(av.take(i as int)),
        decreases advancing@.len() - i,
    {
        assert(av.take(i + 1 as int).drop_last() =~= av.take(i as int));
        assert(av.take(i + 1 as int).last() == av[i as int]);
        let ghost before = r@;
        match &advancing[i] {
            Some(name) => {
                r.push(name.clone());
                assert(strings_view(r@) =~= strings_view(before).push(name@));
            },
            None => {},
        }
        i = i + 1;
    }
    assert(av.take(advancing@.len() as int) =~= av);
    r
}

} // verus!

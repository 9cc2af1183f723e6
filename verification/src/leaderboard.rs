//! Match bookkeeping for the leaderboard: outcomes, head-to-head counts
//! keyed by an order-independent pair key, win/loss/draw tallies, and the
//! history of recorded matches.
//!
//! The ratings themselves (Glicko-2, in floating point) are computed
//! outside the library; everything countable is kept here.
use std::time::{Duration, SystemTime, SystemTimeError, UNIX_EPOCH};

use vstd::prelude::*;

use crate::protocol::{copy_strings, strings_view};
use crate::symbols::{find_name, lemma_find_name, names_view};
use crate::text::{chars_less, chars_of, lex_lt, lemma_lex_order, same_text, string_of};

verus! {

/// The result of one match between named players.
#[derive(Debug, Clone, PartialEq, Eq)]
pub enum MatchOutcome {
    Win { winner: String, loser: String },
    Draw { players: Vec<String> },
}

/// The mathematical value of a [`MatchOutcome`].
pub ghost enum SpecOutcome {
    Win { winner: Seq<char>, loser: Seq<char> },
    Draw { players: Seq<Seq<char>> },
}

pub open spec fn outcome_view(o: MatchOutcome) -> SpecOutcome {
    match o {
        MatchOutcome::Win { winner, loser } => SpecOutcome::Win { winner: winner@, loser: loser@ },
        MatchOutcome::Draw { players } => SpecOutcome::Draw { players: strings_view(players@) },
    }
}

pub open spec fn involves(o: SpecOutcome, player: Seq<char>) -> bool {
    match o {
        SpecOutcome::Win { winner, loser } => winner == player || loser == player,
        SpecOutcome::Draw { players } => players.contains(player),
    }
}

/// The entries of `s` without repeats, each where it first occurs.
pub open spec fn dedup(s: Seq<Seq<char>>) -> Seq<Seq<char>>
    decreases s.len(),
{
    if s.len() == 0 {
        Seq::empty()
    } else {
        let d = dedup(s.drop_last());
        if d.contains(s.last()) {
            d
        } else {
            d.push(s.last())
        }
    }
}

/// The players an outcome concerns.
pub open spec fn participants(o: SpecOutcome) -> Seq<Seq<char>> {
    match o {
        SpecOutcome::Win { winner, loser } => seq![winner, loser],
        SpecOutcome::Draw { players } => dedup(players),
    }
}

/// The values of a sequence of outcomes.
pub open spec fn outcomes_view(os: Seq<MatchOutcome>) -> Seq<SpecOutcome> {
    os.map_values(|o: MatchOutcome| outcome_view(o))
}

/// Whether `n` plays in one of the outcomes.
pub open spec fn outcomes_involve(os: Seq<SpecOutcome>, n: Seq<char>) -> bool {
    exists|i: int| 0 <= i < os.len() && #[trigger] participants(os[i]).contains(n)
}

/// How the outcomes together change the (wins, losses, draws) of `n`.
pub open spec fn tally_sum(os: Seq<SpecOutcome>, n: Seq<char>) -> (nat, nat, nat)
    decreases os.len(),
{
    if os.len() == 0 {
        (0nat, 0nat, 0nat)
    } else {
        add3(tally_sum(os.drop_last(), n), tally_delta(os.last(), n))
    }
}

/// How the outcomes together change the head-to-head counts under `k`.
pub open spec fn pair_sum(os: Seq<SpecOutcome>, k: Seq<char>) -> (nat, nat, nat)
    decreases os.len(),
{
    if os.len() == 0 {
        (0nat, 0nat, 0nat)
    } else {
        add3(pair_sum(os.drop_last(), k), pair_delta(os.last(), k))
    }
}

/// Whether `s@` is among `v`.
fn contains_string(v: &Vec<String>, s: &String) -> (b: bool)
    ensures
        b == strings_view(v@).contains(s@),
{
    let mut i: usize = 0;
    while i < v.len()
        invariant
            i <= v@.len(),
            forall|j: int| 0 <= j < i ==> strings_view(v@)[j] != s@,
        decreases v@.len() - i,
    {
        if v[i] == *s {
            assert(strings_view(v@)[i as int] == s@);
            return true;
        }
        i = i + 1;
    }
    false
}

/// The players without repeats, in order of first appearance.
pub fn unique_players(players: &[String]) -> (r: Vec<String>)
    ensures
        strings_view(r@) == dedup(strings_view(players@)),
{
    let mut out: Vec<String> = Vec::new();
    let mut i: usize = 0;
    assert(strings_view(players@).take(0) =~= Seq::<Seq<char>>::empty());
    assert(strings_view(out@) =~= Seq::<Seq<char>>::empty());
    while i < players.len()
        invariant
            i <= players@.len(),
            strings_view(out@) == dedup(strings_view(players@).take(i as int)),
        decreases players@.len() - i,
    {
        let ghost all = strings_view(players@);
        assert(all.take(i + 1 as int).drop_last() =~= all.take(i as int));
        let p = players[i].clone();
        if !contains_string(&out, &p) {
            let ghost before = out@;
            out.push(p);
            assert(strings_view(out@) =~= strings_view(before).push(p@));
        }
        i = i + 1;
    }
    assert(strings_view(players@).take(players@.len() as int) =~= strings_view(players@));
    out
}

impl MatchOutcome {
    /// Whether `player` took part in this match.
    pub fn involves_player(&self, player: &str) -> (b: bool)
        ensures
            b == involves(outcome_view(*self), player@),
    {
        match self {
            MatchOutcome::Win { winner, loser } => same_text(winner, player) || same_text(
                loser,
                player,
            ),
            MatchOutcome::Draw { players } => {
                let owned = player.to_owned();
                contains_string(players, &owned)
            },
        }
    }

    /// The players this match concerns: both sides of a win, the distinct
    /// players of a draw.
    pub fn participant_names(&self) -> (r: Vec<String>)
        ensures
            strings_view(r@) == participants(outcome_view(*self)),
    {
        match self {
            MatchOutcome::Win { winner, loser } => {
                let mut r: Vec<String> = Vec::new();
                r.push(winner.clone());
                r.push(loser.clone());
                assert(strings_view(r@) =~= seq![winner@, loser@]);
                r
            },
            MatchOutcome::Draw { players } => unique_players(players.as_slice()),
        }
    }
}

/// The key under which the head-to-head record of two players is kept:
/// the two names, smaller first, joined by a NUL character; `true` when
/// the names were already in that order.
pub open spec fn spec_pair_key(a: Seq<char>, b: Seq<char>) -> (Seq<char>, bool) {
    if !lex_lt(b, a) {
        (a + seq!['\0'] + b, true)
    } else {
        (b + seq!['\0'] + a, false)
    }
}

/// See [`spec_pair_key`].
pub fn pair_key(player_a: &str, player_b: &str) -> (r: (String, bool))
    ensures
        r.0@ == spec_pair_key(player_a@, player_b@).0,
        r.1 == spec_pair_key(player_a@, player_b@).1,
{
    let a = chars_of(player_a);
    let b = chars_of(player_b);
    let forward = !chars_less(b.as_slice(), a.as_slice());
    let (mut first, mut second) = if forward {
        (a, b)
    } else {
        (b, a)
    };
    first.push('\0');
    first.append(&mut second);
    (string_of(first.as_slice()), forward)
}

/// The key of two players does not depend on their order, and exactly one
/// of the two orders is the forward one when the names differ.
pub proof fn lemma_pair_key_symmetric(a: Seq<char>, b: Seq<char>)
    ensures
        spec_pair_key(a, b).0 == spec_pair_key(b, a).0,
        a != b ==> spec_pair_key(a, b).1 != spec_pair_key(b, a).1,
{
    lemma_lex_order(a, b, a);
    if a == b {
    }
}

/// Wins and draws between two players, `a` being the smaller name.
#[derive(Debug, Clone, Copy, PartialEq, Eq, Structural)]
pub struct HeadToHead {
    pub wins_a: u32,
    pub wins_b: u32,
    pub draws: u32,
}

impl Default for HeadToHead {
    fn default() -> (r: Self)
        ensures
            r == (HeadToHead { wins_a: 0, wins_b: 0, draws: 0 }),
    {
        HeadToHead { wins_a: 0, wins_b: 0, draws: 0 }
    }
}

/// A recorded match and when it was recorded.
#[derive(Debug, Clone, PartialEq, Eq)]
pub struct HistoricalMatch {
    pub outcome: MatchOutcome,
    pub timestamp_unix_secs: u64,
}

/// The matches recorded so far, oldest first.
#[derive(Debug, Clone, PartialEq, Eq)]
pub struct MatchHistory {
    matches: Vec<HistoricalMatch>,
}

/// The entries of `ms` that involve `player`, newest first.
pub open spec fn newest_first(ms: Seq<HistoricalMatch>, player: Seq<char>) -> Seq<HistoricalMatch>
    decreases ms.len(),
{
    if ms.len() == 0 {
        Seq::empty()
    } else {
        let rest = newest_first(ms.drop_last(), player);
        if involves(outcome_view(ms.last().outcome), player) {
            seq![ms.last()] + rest
        } else {
            rest
        }
    }
}

#[verifier::external_type_specification]
#[verifier::external_body]
pub struct ExSystemTime(std::time::SystemTime);

#[verifier::external_type_specification]
#[verifier::external_body]
pub struct ExSystemTimeError(std::time::SystemTimeError);

/// The system clock's current time, by `std::time::SystemTime::now`.
/// Nothing is claimed of it.
#[verifier::external_body]
fn clock_now() -> SystemTime {
    SystemTime::now()
}

/// How long after the Unix epoch `t` lies, by
/// `std::time::SystemTime::duration_since` with `UNIX_EPOCH`; an error when
/// `t` lies before it. Nothing is claimed of the result.
#[verifier::external_body]
fn since_unix_epoch(t: &SystemTime) -> Result<Duration, SystemTimeError> {
    t.duration_since(UNIX_EPOCH)
}

/// The whole seconds of `d`, by `std::time::Duration::as_secs`. Nothing is
/// claimed of the result.
#[verifier::external_body]
fn whole_seconds(d: &Duration) -> u64 {
    d.as_secs()
}

/// Seconds since the Unix epoch by the system clock; 0 before the epoch.
fn unix_now_secs() -> u64 {
    let now = clock_now();
    match since_unix_epoch(&now) {
        Ok(elapsed) => whole_seconds(&elapsed),
        Err(_) => 0,
    }
}

impl MatchHistory {
    pub closed spec fn view(&self) -> Seq<HistoricalMatch> {
        self.matches@
    }

    pub fn new() -> (h: Self)
        ensures
            h@ == Seq::<HistoricalMatch>::empty(),
    {
        MatchHistory { matches: Vec::new() }
    }

    /// Records `outcome`, stamped with the current time.
    pub fn record(&mut self, outcome: MatchOutcome)
        ensures
            final(self)@.len() == old(self)@.len() + 1,
            final(self)@.drop_last() == old(self)@,
            final(self)@.last().outcome == outcome,
    {
        let now = unix_now_secs();
        self.record_at(outcome, now);
    }

    /// Records `outcome` with the given timestamp.
    pub fn record_at(&mut self, outcome: MatchOutcome, timestamp_unix_secs: u64)
        ensures
            final(self)@ == old(self)@.push(HistoricalMatch { outcome, timestamp_unix_secs }),
    {
        self.matches.push(HistoricalMatch { outcome, timestamp_unix_secs });
    }

    pub fn matches(&self) -> (r: &[HistoricalMatch])
        ensures
            r@ == self@,
    {
        self.matches.as_slice()
    }

    /// A history holding `matches`, oldest first.
    pub fn from_matches(matches: Vec<HistoricalMatch>) -> (h: Self)
        ensures
            h@ == matches@,
    {
        MatchHistory { matches }
    }

    /// The most recent `limit` matches that involve `player`, newest first.
    pub fn recent_matches_for_player(&self, player: &str, limit: usize) -> (r: Vec<
        &HistoricalMatch,
    >)
        ensures
            r@.map_values(|m: &HistoricalMatch| *m) == newest_first(self@, player@).take(
                r@.len() as int,
            ),
            r@.len() == if limit <= newest_first(self@, player@).len() {
                limit as int
            } else {
                newest_first(self@, player@).len() as int
            },
    {
        let ghost all = newest_first(self@, player@);
        let mut out: Vec<&HistoricalMatch> = Vec::new();
        let mut j = self.matches.len();
        assert(self@.take(j as int) =~= self@);
        assert(out@.map_values(|m: &HistoricalMatch| *m) =~= Seq::<HistoricalMatch>::empty());
        while j > 0 && out.len() < limit
            invariant
                j <= self@.len(),
                out@.len() <= limit,
                all == newest_first(self@, player@),
                out@.map_values(|m: &HistoricalMatch| *m) + newest_first(
                    self@.take(j as int),
                    player@,
                ) == all,
            decreases j,
        {
            let ghost prefix = self@.take(j as int);
            assert(prefix.drop_last() =~= self@.take(j - 1 as int));
            let entry = &self.matches[j - 1];
            let ghost before = out@.map_values(|m: &HistoricalMatch| *m);
            if entry.outcome.involves_player(player) {
                out.push(entry);
                assert(out@.map_values(|m: &HistoricalMatch| *m) =~= before.push(*entry));
                assert(before.push(*entry) + newest_first(self@.take(j - 1 as int), player@)
                    =~= before + (seq![*entry] + newest_first(self@.take(j - 1 as int), player@)));
            }
            j = j - 1;
        }
        proof {
            let got = out@.map_values(|m: &HistoricalMatch| *m);
            assert(got.len() <= all.len());
            assert(got =~= all.take(got.len() as int));
            if j == 0 {
                assert(self@.take(0) =~= Seq::<HistoricalMatch>::empty());
                assert(got =~= all);
            }
        }
        out
    }
}

// ---------------------------------------------------------------------------
// Tallies and head-to-head records
// ---------------------------------------------------------------------------

/// A player's win, loss and draw counts.
#[derive(Debug, Clone, PartialEq, Eq)]
pub struct PlayerTally {
    pub name: String,
    pub wins: u32,
    pub losses: u32,
    pub draws: u32,
}

/// Counts as mathematical triples.
pub open spec fn add3(a: (nat, nat, nat), b: (nat, nat, nat)) -> (nat, nat, nat) {
    (a.0 + b.0, a.1 + b.1, a.2 + b.2)
}

pub open spec fn fits3(a: (nat, nat, nat)) -> bool {
    a.0 <= u32::MAX && a.1 <= u32::MAX && a.2 <= u32::MAX
}

pub open spec fn h2h_counts(h: HeadToHead) -> (nat, nat, nat) {
    (h.wins_a as nat, h.wins_b as nat, h.draws as nat)
}

/// How one outcome changes a player's (wins, losses, draws): the winner
/// and the loser of a win gain one each; each distinct player of a draw
/// gains one draw per other distinct player.
pub open spec fn tally_delta(o: SpecOutcome, n: Seq<char>) -> (nat, nat, nat) {
    match o {
        SpecOutcome::Win { winner, loser } => (
            if winner == n {
                1nat
            } else {
                0nat
            },
            if loser == n {
                1nat
            } else {
                0nat
            },
            0nat,
        ),
        SpecOutcome::Draw { players } => {
            let u = dedup(players);
            (0nat, 0nat, if u.contains(n) {
                (u.len() - 1) as nat
            } else {
                0nat
            })
        },
    }
}

/// The number of entries `x` of `rest` whose pair key with `a` is `k`.
pub open spec fn keys_with(a: Seq<char>, rest: Seq<Seq<char>>, k: Seq<char>) -> nat
    decreases rest.len(),
{
    if rest.len() == 0 {
        0
    } else {
        keys_with(a, rest.drop_last(), k) + if spec_pair_key(a, rest.last()).0 == k {
            1nat
        } else {
            0nat
        }
    }
}

/// The number of pairs `u[i], u[j]` with `i < j` whose pair key is `k`.
pub open spec fn draw_pairs(u: Seq<Seq<char>>, k: Seq<char>) -> nat
    decreases u.len(),
{
    if u.len() == 0 {
        0
    } else {
        keys_with(u[0], u.drop_first(), k) + draw_pairs(u.drop_first(), k)
    }
}

/// How one outcome changes the head-to-head counts kept under key `k`.
pub open spec fn pair_delta(o: SpecOutcome, k: Seq<char>) -> (nat, nat, nat) {
    match o {
        SpecOutcome::Win { winner, loser } => {
            let (key, forward) = spec_pair_key(winner, loser);
            if key != k {
                (0nat, 0nat, 0nat)
            } else if forward {
                (1nat, 0nat, 0nat)
            } else {
                (0nat, 1nat, 0nat)
            }
        },
        SpecOutcome::Draw { players } => (0nat, 0nat, draw_pairs(dedup(players), k)),
    }
}

/// A copy of the tallies: the same names and counts.
fn copy_tallies(v: &Vec<PlayerTally>) -> (r: Vec<PlayerTally>)
    ensures
        r@.len() == v@.len(),
        forall|i: int|
            0 <= i < v@.len() ==> (#[trigger] r@[i]).name@ == v@[i].name@ && r@[i].wins
                == v@[i].wins && r@[i].losses == v@[i].losses && r@[i].draws == v@[i].draws,
{
    let mut r: Vec<PlayerTally> = Vec::new();
    let mut i: usize = 0;
    while i < v.len()
        invariant
            i <= v@.len(),
            r@.len() == i,
            forall|j: int|
                0 <= j < i ==> (#[trigger] r@[j]).name@ == v@[j].name@ && r@[j].wins == v@[j].wins
                    && r@[j].losses == v@[j].losses && r@[j].draws == v@[j].draws,
        decreases v@.len() - i,
    {
        let t = &v[i];
        r.push(PlayerTally { name: t.name.clone(), wins: t.wins, losses: t.losses, draws: t.draws });
        i = i + 1;
    }
    r
}

/// A copy of the head-to-head records: the same keys and counts.
fn copy_pairs(v: &Vec<(String, HeadToHead)>) -> (r: Vec<(String, HeadToHead)>)
    ensures
        r@.len() == v@.len(),
        forall|i: int|
            0 <= i < v@.len() ==> (#[trigger] r@[i]).0@ == v@[i].0@ && r@[i].1 == v@[i].1,
{
    let mut r: Vec<(String, HeadToHead)> = Vec::new();
    let mut i: usize = 0;
    while i < v.len()
        invariant
            i <= v@.len(),
            r@.len() == i,
            forall|j: int| 0 <= j < i ==> (#[trigger] r@[j]).0@ == v@[j].0@ && r@[j].1 == v@[j].1,
        decreases v@.len() - i,
    {
        r.push((v[i].0.clone(), v[i].1));
        i = i + 1;
    }
    r
}

/// A copy of an outcome.
fn copy_outcome(o: &MatchOutcome) -> (r: MatchOutcome)
    ensures
        outcome_view(r) == outcome_view(*o),
{
    match o {
        MatchOutcome::Win { winner, loser } => MatchOutcome::Win {
            winner: winner.clone(),
            loser: loser.clone(),
        },
        MatchOutcome::Draw { players } => MatchOutcome::Draw { players: copy_strings(players) },
    }
}

/// The records a leaderboard keeps besides the ratings: each known
/// player's tally, the head-to-head counts per pair key, and the history.
pub struct MatchRecords {
    tallies: Vec<PlayerTally>,
    pairs: Vec<(String, HeadToHead)>,
    history: MatchHistory,
}

impl MatchRecords {
    pub closed spec fn names(&self) -> Seq<Seq<char>> {
        self.tallies@.map_values(|t: PlayerTally| t.name@)
    }

    /// The tallies, in the order the players were first seen.
    pub closed spec fn tally_entries(&self) -> Seq<PlayerTally> {
        self.tallies@
    }

    /// The head-to-head records with their keys.
    pub closed spec fn pair_entries(&self) -> Seq<(String, HeadToHead)> {
        self.pairs@
    }

    /// No player has two tallies and no pair key two records.
    pub closed spec fn wf(&self) -> bool {
        &&& self.names().no_duplicates()
        &&& self.keys().no_duplicates()
    }

    /// Records made of stored parts, in which no player name and no pair key
    /// occurs twice.
    pub fn from_parts(
        tallies: Vec<PlayerTally>,
        pairs: Vec<(String, HeadToHead)>,
        history: MatchHistory,
    ) -> (r: Self)
        requires
            tallies@.map_values(|t: PlayerTally| t.name@).no_duplicates(),
            pairs@.map_values(|e: (String, HeadToHead)| e.0@).no_duplicates(),
        ensures
            r.wf(),
            r.tally_entries() == tallies@,
            r.pair_entries() == pairs@,
            r.history() == history@,
    {
        MatchRecords { tallies, pairs, history }
    }

    /// The head-to-head records with their keys (see [`pair_key`]).
    pub fn pairs(&self) -> (r: &[(String, HeadToHead)])
        ensures
            r@ == self.pair_entries(),
    {
        self.pairs.as_slice()
    }

    /// Whether `name` has a tally.
    pub closed spec fn knows(&self, name: Seq<char>) -> bool {
        find_name(self.names(), name) is Some
    }

    /// The (wins, losses, draws) of `name`; zeros for an unknown player.
    pub closed spec fn tally(&self, name: Seq<char>) -> (nat, nat, nat) {
        match find_name(self.names(), name) {
            Some(i) => {
                let t = self.tallies@[i as int];
                (t.wins as nat, t.losses as nat, t.draws as nat)
            },
            None => (0nat, 0nat, 0nat),
        }
    }

    pub closed spec fn keys(&self) -> Seq<Seq<char>> {
        self.pairs@.map_values(|e: (String, HeadToHead)| e.0@)
    }

    /// The head-to-head record kept under `key`; zeros when there is none.
    pub closed spec fn pair(&self, key: Seq<char>) -> HeadToHead {
        match find_name(self.keys(), key) {
            Some(i) => self.pairs@[i as int].1,
            None => HeadToHead { wins_a: 0, wins_b: 0, draws: 0 },
        }
    }

    pub closed spec fn history(&self) -> Seq<HistoricalMatch> {
        self.history@
    }

    /// Whether recording `o` keeps every count within `u32`.
    pub open spec fn has_room(&self, o: SpecOutcome) -> bool {
        &&& forall|n: Seq<char>| fits3(#[trigger] add3(self.tally(n), tally_delta(o, n)))
        &&& forall|k: Seq<char>|
            fits3(#[trigger] add3(h2h_counts(self.pair(k)), pair_delta(o, k)))
    }

    /// What the head-to-head of `a` against `b` reads: the record under
    /// their pair key, with the two win counts swapped when `a` is the
    /// larger name.
    pub open spec fn spec_head_to_head(&self, a: Seq<char>, b: Seq<char>) -> HeadToHead {
        let (key, forward) = spec_pair_key(a, b);
        let h = self.pair(key);
        if forward {
            h
        } else {
            HeadToHead { wins_a: h.wins_b, wins_b: h.wins_a, draws: h.draws }
        }
    }

    pub fn new() -> (r: Self)
        ensures
            r.wf(),
            forall|n: Seq<char>| !r.knows(n),
            forall|n: Seq<char>| r.tally(n) == (0nat, 0nat, 0nat),
            forall|k: Seq<char>| r.pair(k) == (HeadToHead { wins_a: 0, wins_b: 0, draws: 0 }),
            r.history() == Seq::<HistoricalMatch>::empty(),
    {
        let r = MatchRecords { tallies: Vec::new(), pairs: Vec::new(), history: MatchHistory::new() };
        assert(r.names() =~= Seq::<Seq<char>>::empty());
        assert(r.keys() =~= Seq::<Seq<char>>::empty());
        r
    }

    /// The tally of `name`, if the player is known.
    pub fn tally_of(&self, name: &str) -> (r: Option<PlayerTally>)
        ensures
            r is Some <==> self.knows(name@),
            r matches Some(t) ==> t.name@ == name@ && (t.wins as nat, t.losses as nat, t.draws as nat)
                == self.tally(name@),
    {
        let mut i: usize = 0;
        while i < self.tallies.len()
            invariant
                i <= self.tallies@.len(),
                forall|j: int| 0 <= j < i ==> self.names()[j] != name@,
            decreases self.tallies@.len() - i,
        {
            if same_text(&self.tallies[i].name, name) {
                proof {
                    lemma_find_name(self.names(), name@);
                    assert(self.names()[i as int] == name@);
                    if let Some(k) = find_name(self.names(), name@) {
                        if k < i {
                            assert(self.names()[k as int] != name@);
                        }
                    }
                }
                let t = &self.tallies[i];
                return Some(
                    PlayerTally {
                        name: t.name.clone(),
                        wins: t.wins,
                        losses: t.losses,
                        draws: t.draws,
                    },
                );
            }
            i = i + 1;
        }
        proof {
            lemma_find_name(self.names(), name@);
        }
        None
    }

    /// Every known player's tally, in the order the players were first seen.
    pub fn tallies(&self) -> (r: &[PlayerTally])
        ensures
            r@ == self.tally_entries(),
            r@.map_values(|t: PlayerTally| t.name@) == self.names(),
    {
        self.tallies.as_slice()
    }

    /// The history of recorded matches.
    pub fn history_entries(&self) -> (r: &MatchHistory)
        ensures
            r@ == self.history(),
    {
        &self.history
    }

    /// The head-to-head record of `player_a` against `player_b`.
    pub fn head_to_head(&self, player_a: &str, player_b: &str) -> (r: HeadToHead)
        ensures
            r == self.spec_head_to_head(player_a@, player_b@),
    {
        let (key, forward) = pair_key(player_a, player_b);
        let h = self.pair_of(&key);
        if forward {
            h
        } else {
            HeadToHead { wins_a: h.wins_b, wins_b: h.wins_a, draws: h.draws }
        }
    }

    fn pair_of(&self, key: &String) -> (r: HeadToHead)
        ensures
            r == self.pair(key@),
    {
        match self.pair_index(key) {
            Some(i) => {
                proof {
                    lemma_find_name(self.keys(), key@);
                }
                self.pairs[i].1
            },
            None => HeadToHead { wins_a: 0, wins_b: 0, draws: 0 },
        }
    }

    fn pair_index(&self, key: &String) -> (r: Option<usize>)
        ensures
            match r {
                Some(i) => find_name(self.keys(), key@) == Some(i as nat),
                None => find_name(self.keys(), key@) is None,
            },
    {
        let mut i: usize = 0;
        while i < self.pairs.len()
            invariant
                i <= self.pairs@.len(),
                forall|j: int| 0 <= j < i ==> self.keys()[j] != key@,
            decreases self.pairs@.len() - i,
        {
            if self.pairs[i].0 == *key {
                proof {
                    lemma_find_name(self.keys(), key@);
                    assert(self.keys()[i as int] == key@);
                    if let Some(k) = find_name(self.keys(), key@) {
                        if k < i {
                            assert(self.keys()[k as int] != key@);
                        }
                    }
                }
                return Some(i);
            }
            i = i + 1;
        }
        proof {
            lemma_find_name(self.keys(), key@);
        }
        None
    }

    fn tally_index(&self, name: &String) -> (r: Option<usize>)
        ensures
            match r {
                Some(i) => find_name(self.names(), name@) == Some(i as nat),
                None => find_name(self.names(), name@) is None,
            },
    {
        let mut i: usize = 0;
        while i < self.tallies.len()
            invariant
                i <= self.tallies@.len(),
                forall|j: int| 0 <= j < i ==> self.names()[j] != name@,
            decreases self.tallies@.len() - i,
        {
            if self.tallies[i].name == *name {
                proof {
                    lemma_find_name(self.names(), name@);
                    assert(self.names()[i as int] == name@);
                    if let Some(k) = find_name(self.names(), name@) {
                        if k < i {
                            assert(self.names()[k as int] != name@);
                        }
                    }
                }
                return Some(i);
            }
            i = i + 1;
        }
        proof {
            lemma_find_name(self.names(), name@);
        }
        None
    }
}

/// `dedup` keeps exactly the entries of `s`, each once.
pub proof fn lemma_dedup(s: Seq<Seq<char>>)
    ensures
        forall|x: Seq<char>| dedup(s).contains(x) <==> s.contains(x),
        forall|i: int, j: int| 0 <= i < j < dedup(s).len() ==> dedup(s)[i] != dedup(s)[j],
    decreases s.len(),
{
    if s.len() > 0 {
        let rest = s.drop_last();
        lemma_dedup(rest);
        let d = dedup(rest);
        assert forall|x: Seq<char>| dedup(s).contains(x) <==> s.contains(x) by {
            if s.contains(x) {
                let k = choose|k: int| 0 <= k < s.len() && s[k] == x;
                if k < s.len() - 1 {
                    assert(rest[k] == x);
                    assert(rest.contains(x));
                }
                if d.contains(x) {
                    let m = choose|m: int| 0 <= m < d.len() && d[m] == x;
                    assert(dedup(s)[m] == x);
                } else {
                    assert(dedup(s)[d.len() as int] == x);
                }
            }
            if dedup(s).contains(x) {
                let k = choose|k: int| 0 <= k < dedup(s).len() && dedup(s)[k] == x;
                if k < d.len() {
                    assert(d[k] == x);
                    assert(d.contains(x));
                    assert(rest.contains(x));
                    let m = choose|m: int| 0 <= m < rest.len() && rest[m] == x;
                    assert(s[m] == x);
                } else {
                    assert(s[s.len() - 1] == x);
                }
            }
        }
    }
}

proof fn lemma_keys_with_take(a: Seq<char>, rest: Seq<Seq<char>>, m: int, k: Seq<char>)
    requires
        0 <= m < rest.len(),
    ensures
        keys_with(a, rest.take(m + 1), k) == keys_with(a, rest.take(m), k) + if spec_pair_key(
            a,
            rest[m],
        ).0 == k {
            1nat
        } else {
            0nat
        },
{
    assert(rest.take(m + 1).drop_last() =~= rest.take(m));
}

proof fn lemma_keys_with_prefix(a: Seq<char>, rest: Seq<Seq<char>>, m: int, k: Seq<char>)
    requires
        0 <= m <= rest.len(),
    ensures
        keys_with(a, rest.take(m), k) <= keys_with(a, rest, k),
    decreases rest.len() - m,
{
    if m < rest.len() {
        lemma_keys_with_take(a, rest, m, k);
        lemma_keys_with_prefix(a, rest, m + 1, k);
    } else {
        assert(rest.take(m) =~= rest);
    }
}

impl MatchRecords {
    proof fn lemma_names_push(&self, old_names: Seq<Seq<char>>, x: Seq<char>)
        requires
            self.names() == old_names.push(x),
            find_name(old_names, x) is None,
        ensures
            forall|n: Seq<char>|
                #![trigger find_name(self.names(), n)]
                find_name(self.names(), n) == if n == x {
                    Some(old_names.len())
                } else {
                    find_name(old_names, n)
                },
    {
        assert(self.names().drop_last() =~= old_names);
    }

    /// Gives `name` a zero tally unless it has one.
    fn ensure_player(&mut self, name: &String)
        ensures
            final(self).pairs == old(self).pairs,
            final(self).history == old(self).history,
            forall|n: Seq<char>| #[trigger]
                final(self).knows(n) == (old(self).knows(n) || n == name@),
            forall|n: Seq<char>| #[trigger] final(self).tally(n) == old(self).tally(n),
            final(self).keys() == old(self).keys(),
            old(self).names().no_duplicates() ==> final(self).names().no_duplicates(),
    {
        match self.tally_index(name) {
            Some(_) => {},
            None => {
                let ghost old_names = self.names();
                let ghost old_tallies = self.tallies@;
                self.tallies.push(PlayerTally { name: name.clone(), wins: 0, losses: 0, draws: 0 });
                assert(self.names() =~= old_names.push(name@));
                proof {
                    lemma_find_name(old_names, name@);
                    self.lemma_names_push(old_names, name@);
                    assert forall|n: Seq<char>| #[trigger] self.tally(n) == old(self).tally(n) by {
                        if let Some(i) = find_name(old_names, n) {
                            lemma_find_name(old_names, n);
                            assert(self.tallies@[i as int] == old_tallies[i as int]);
                        }
                    }
                }
            },
        }
    }

    /// Adds `(dw, dl, dd)` to the tally of the known player `name`; when a
    /// count would leave `u32`, fails and changes nothing.
    fn add_tally(&mut self, name: &String, dw: u32, dl: u32, dd: u32) -> (ok: bool)
        requires
            old(self).knows(name@),
        ensures
            final(self).pairs == old(self).pairs,
            final(self).history == old(self).history,
            forall|n: Seq<char>| #[trigger] final(self).knows(n) == old(self).knows(n),
            ok == fits3(add3(old(self).tally(name@), (dw as nat, dl as nat, dd as nat))),
            ok ==> forall|n: Seq<char>|
                #[trigger] final(self).tally(n) == if n == name@ {
                    add3(old(self).tally(n), (dw as nat, dl as nat, dd as nat))
                } else {
                    old(self).tally(n)
                },
            !ok ==> final(self).tallies == old(self).tallies,
            final(self).names() == old(self).names(),
    {
        let i = match self.tally_index(name) {
            Some(i) => i,
            None => {
                return false;
            },
        };
        proof {
            lemma_find_name(self.names(), name@);
        }
        let t = &self.tallies[i];
        let wins = match t.wins.checked_add(dw) {
            Some(v) => v,
            None => {
                return false;
            },
        };
        let losses = match t.losses.checked_add(dl) {
            Some(v) => v,
            None => {
                return false;
            },
        };
        let draws = match t.draws.checked_add(dd) {
            Some(v) => v,
            None => {
                return false;
            },
        };
        let updated = PlayerTally { name: t.name.clone(), wins, losses, draws };
        let ghost old_names = self.names();
        let ghost old_tallies = self.tallies@;
        self.tallies.set(i, updated);
        assert(self.names() =~= old_names);
        proof {
            assert forall|n: Seq<char>| #[trigger]
                self.tally(n) == if n == name@ {
                    add3(old(self).tally(n), (dw as nat, dl as nat, dd as nat))
                } else {
                    old(self).tally(n)
                } by {
                if let Some(j) = find_name(old_names, n) {
                    lemma_find_name(old_names, n);
                    if j != i {
                        assert(self.tallies@[j as int] == old_tallies[j as int]);
                    }
                }
            }
        }
        true
    }

    /// Adds `(dwa, dwb, dd)` to the head-to-head record under `key`; when a
    /// count would leave `u32`, fails and changes nothing.
    fn add_pair(&mut self, key: String, dwa: u32, dwb: u32, dd: u32) -> (ok: bool)
        ensures
            final(self).tallies == old(self).tallies,
            final(self).history == old(self).history,
            ok == fits3(add3(h2h_counts(old(self).pair(key@)), (dwa as nat, dwb as nat, dd as nat))),
            ok ==> forall|k: Seq<char>|
                #[trigger] h2h_counts(final(self).pair(k)) == if k == key@ {
                    add3(h2h_counts(old(self).pair(k)), (dwa as nat, dwb as nat, dd as nat))
                } else {
                    h2h_counts(old(self).pair(k))
                },
            !ok ==> final(self).pairs == old(self).pairs,
            old(self).keys().no_duplicates() ==> final(self).keys().no_duplicates(),
    {
        let ghost old_keys = self.keys();
        let ghost old_pairs = self.pairs@;
        match self.pair_index(&key) {
            Some(i) => {
                proof {
                    lemma_find_name(self.keys(), key@);
                }
                let h = self.pairs[i].1;
                let wins_a = match h.wins_a.checked_add(dwa) {
                    Some(v) => v,
                    None => {
                        return false;
                    },
                };
                let wins_b = match h.wins_b.checked_add(dwb) {
                    Some(v) => v,
                    None => {
                        return false;
                    },
                };
                let draws = match h.draws.checked_add(dd) {
                    Some(v) => v,
                    None => {
                        return false;
                    },
                };
                self.pairs.set(i, (key, HeadToHead { wins_a, wins_b, draws }));
                assert(self.keys() =~= old_keys);
                proof {
                    assert forall|k: Seq<char>| #[trigger]
                        h2h_counts(self.pair(k)) == if k == key@ {
                            add3(h2h_counts(old(self).pair(k)), (dwa as nat, dwb as nat, dd as nat))
                        } else {
                            h2h_counts(old(self).pair(k))
                        } by {
                        if let Some(j) = find_name(old_keys, k) {
                            lemma_find_name(old_keys, k);
                            if j != i {
                                assert(self.pairs@[j as int] == old_pairs[j as int]);
                            }
                        }
                    }
                }
                true
            },
            None => {
                let ghost key_view = key@;
                self.pairs.push((key, HeadToHead { wins_a: dwa, wins_b: dwb, draws: dd }));
                assert(self.keys().drop_last() =~= old_keys);
                proof {
                    lemma_find_name(old_keys, key_view);
                    assert(self.keys() =~= old_keys.push(key_view));
                }
                proof {
                    assert forall|k: Seq<char>| #[trigger]
                        h2h_counts(self.pair(k)) == if k == key_view {
                            add3(h2h_counts(old(self).pair(k)), (dwa as nat, dwb as nat, dd as nat))
                        } else {
                            h2h_counts(old(self).pair(k))
                        } by {
                        if let Some(j) = find_name(old_keys, k) {
                            lemma_find_name(old_keys, k);
                            assert(self.pairs@[j as int] == old_pairs[j as int]);
                        }
                    }
                }
                true
            },
        }
    }
}

proof fn lemma_take_contains(s: Seq<Seq<char>>, i: int)
    requires
        0 <= i < s.len(),
    ensures
        forall|n: Seq<char>| #[trigger]
            s.take(i + 1).contains(n) <==> (s.take(i).contains(n) || s[i] == n),
{
    assert forall|n: Seq<char>| #[trigger]
        s.take(i + 1).contains(n) <==> (s.take(i).contains(n) || s[i] == n) by {
        if s.take(i + 1).contains(n) {
            let t = s.take(i + 1);
            let k = choose|k: int| 0 <= k < t.len() && t[k] == n;
            if k < i {
                assert(s.take(i)[k] == n);
            }
        }
        if s.take(i).contains(n) {
            let t = s.take(i);
            let k = choose|k: int| 0 <= k < t.len() && t[k] == n;
            assert(s.take(i + 1)[k] == n);
        }
        if s[i] == n {
            assert(s.take(i + 1)[i] == n);
        }
    }
}

impl MatchRecords {
    /// Makes every player of `u` known.
    fn ensure_players(&mut self, u: &Vec<String>)
        ensures
            final(self).pairs == old(self).pairs,
            final(self).history == old(self).history,
            forall|n: Seq<char>| #[trigger]
                final(self).knows(n) == (old(self).knows(n) || strings_view(u@).contains(n)),
            forall|n: Seq<char>| #[trigger] final(self).tally(n) == old(self).tally(n),
            old(self).wf() ==> final(self).wf(),
    {
        let ghost start = *self;
        let ghost su = strings_view(u@);
        let mut i: usize = 0;
        assert(su.take(0) =~= Seq::<Seq<char>>::empty());
        while i < u.len()
            invariant
                i <= u@.len(),
                su == strings_view(u@),
                self.pairs == start.pairs,
                self.history == start.history,
                forall|n: Seq<char>| #[trigger]
                    self.knows(n) == (start.knows(n) || su.take(i as int).contains(n)),
                forall|n: Seq<char>| #[trigger] self.tally(n) == start.tally(n),
                start.wf() ==> self.wf(),
            decreases u@.len() - i,
        {
            proof {
                lemma_take_contains(su, i as int);
            }
            self.ensure_player(&u[i]);
            i = i + 1;
        }
        assert(su.take(u@.len() as int) =~= su);
    }

    /// Adds `cnt` draws to each player of `u`, all known and distinct.
    fn add_draws(&mut self, u: &Vec<String>, cnt: u32) -> (ok: bool)
        requires
            forall|n: Seq<char>| strings_view(u@).contains(n) ==> old(self).knows(n),
            forall|i: int, j: int|
                0 <= i < j < u@.len() ==> strings_view(u@)[i] != strings_view(u@)[j],
        ensures
            final(self).pairs == old(self).pairs,
            final(self).history == old(self).history,
            forall|n: Seq<char>| #[trigger] final(self).knows(n) == old(self).knows(n),
            ok == forall|i: int|
                0 <= i < u@.len() ==> #[trigger] old(self).tally(strings_view(u@)[i]).2 + cnt
                    <= u32::MAX,
            ok ==> forall|n: Seq<char>| #[trigger]
                final(self).tally(n) == add3(
                    old(self).tally(n),
                    (0nat, 0nat, if strings_view(u@).contains(n) {
                        cnt as nat
                    } else {
                        0nat
                    }),
                ),
            final(self).names() == old(self).names(),
    {
        let ghost start = *self;
        let ghost su = strings_view(u@);
        let mut i: usize = 0;
        assert(su.take(0) =~= Seq::<Seq<char>>::empty());
        while i < u.len()
            invariant
                i <= u@.len(),
                start == *old(self),
                su == strings_view(u@),
                forall|n: Seq<char>| su.contains(n) ==> start.knows(n),
                forall|a: int, b: int| 0 <= a < b < su.len() ==> su[a] != su[b],
                self.pairs == start.pairs,
                self.history == start.history,
                forall|n: Seq<char>| #[trigger] self.knows(n) == start.knows(n),
                forall|n: Seq<char>| #[trigger]
                    self.tally(n) == add3(
                        start.tally(n),
                        (0nat, 0nat, if su.take(i as int).contains(n) {
                            cnt as nat
                        } else {
                            0nat
                        }),
                    ),
                forall|j: int| 0 <= j < i ==> #[trigger] start.tally(su[j]).2 + cnt <= u32::MAX,
                self.names() == start.names(),
            decreases u@.len() - i,
        {
            proof {
                lemma_take_contains(su, i as int);
                assert(su.contains(su[i as int]));
                assert(!su.take(i as int).contains(su[i as int])) by {
                    if su.take(i as int).contains(su[i as int]) {
                        let t = su.take(i as int);
                        let k = choose|k: int| 0 <= k < t.len() && t[k] == su[i as int];
                        assert(su[k] == su[i as int]);
                    }
                }
            }
            if !self.add_tally(&u[i], 0, 0, cnt) {
                return false;
            }
            i = i + 1;
        }
        assert(su.take(u@.len() as int) =~= su);
        true
    }

    /// Adds one draw under the pair key of every `u[i], u[j]` with `i < j`.
    fn add_draw_pairs(&mut self, u: &Vec<String>) -> (ok: bool)
        ensures
            final(self).tallies == old(self).tallies,
            final(self).history == old(self).history,
            ok == forall|k: Seq<char>| #[trigger]
                h2h_counts(old(self).pair(k)).2 + draw_pairs(strings_view(u@), k) <= u32::MAX,
            ok ==> forall|k: Seq<char>| #[trigger]
                h2h_counts(final(self).pair(k)) == add3(
                    h2h_counts(old(self).pair(k)),
                    (0nat, 0nat, draw_pairs(strings_view(u@), k)),
                ),
            old(self).keys().no_duplicates() ==> final(self).keys().no_duplicates(),
    {
        let ghost start = *self;
        let ghost su = strings_view(u@);
        let mut i: usize = 0;
        assert(su.skip(0) =~= su);
        while i < u.len()
            invariant
                i <= u@.len(),
                start == *old(self),
                su == strings_view(u@),
                self.tallies == start.tallies,
                self.history == start.history,
                forall|k: Seq<char>| #[trigger]
                    h2h_counts(self.pair(k)).2 + draw_pairs(su.skip(i as int), k) == h2h_counts(
                        start.pair(k),
                    ).2 + draw_pairs(su, k),
                forall|k: Seq<char>| #[trigger]
                    h2h_counts(self.pair(k)).0 == h2h_counts(start.pair(k)).0 && h2h_counts(
                        self.pair(k),
                    ).1 == h2h_counts(start.pair(k)).1,
                start.keys().no_duplicates() ==> self.keys().no_duplicates(),
            decreases u@.len() - i,
        {
            let ghost outer = *self;
            let ghost rest = su.skip(i + 1 as int);
            assert(su.skip(i as int).drop_first() =~= rest);
            assert(su.skip(i as int)[0] == su[i as int]);
            let mut j: usize = i + 1;
            assert(rest.take(0) =~= Seq::<Seq<char>>::empty());
            while j < u.len()
                invariant
                    i < u@.len(),
                    i + 1 <= j <= u@.len(),
                    start == *old(self),
                    su == strings_view(u@),
                    su.skip(i as int).drop_first() == rest,
                    su.skip(i as int)[0] == su[i as int],
                    su.skip(i as int).len() > 0,
                    forall|k: Seq<char>| #[trigger]
                        h2h_counts(outer.pair(k)).2 + draw_pairs(su.skip(i as int), k)
                            == h2h_counts(start.pair(k)).2 + draw_pairs(su, k),
                    rest == su.skip(i + 1 as int),
                    self.tallies == start.tallies,
                    self.history == start.history,
                    start.keys().no_duplicates() ==> self.keys().no_duplicates(),
                    forall|k: Seq<char>| #[trigger]
                        h2h_counts(self.pair(k)) == add3(
                            h2h_counts(outer.pair(k)),
                            (0nat, 0nat, keys_with(su[i as int], rest.take(j - i - 1), k)),
                        ),
                decreases u@.len() - j,
            {
                let (key, _) = pair_key(u[i].as_str(), u[j].as_str());
                proof {
                    assert(rest[j - i - 1] == su[j as int]);
                    lemma_keys_with_take(su[i as int], rest, j - i - 1, key@);
                }
                if !self.add_pair(key, 0, 0, 1) {
                    proof {
                        lemma_keys_with_prefix(su[i as int], rest, j - i as int, key@);
                        lemma_keys_with_take(su[i as int], rest, j - i - 1, key@);
                        assert(h2h_counts(outer.pair(key@)).2 + draw_pairs(su.skip(i as int), key@)
                            == h2h_counts(start.pair(key@)).2 + draw_pairs(su, key@));
                        assert(draw_pairs(su.skip(i as int), key@) == keys_with(
                            su[i as int],
                            rest,
                            key@,
                        ) + draw_pairs(rest, key@));
                        assert(!(h2h_counts(start.pair(key@)).2 + draw_pairs(su, key@)
                            <= u32::MAX));
                    }
                    return false;
                }
                proof {
                    assert forall|k: Seq<char>| #[trigger]
                        h2h_counts(self.pair(k)) == add3(
                            h2h_counts(outer.pair(k)),
                            (0nat, 0nat, keys_with(su[i as int], rest.take(j + 1 - i - 1), k)),
                        ) by {
                        lemma_keys_with_take(su[i as int], rest, j - i - 1, k);
                    }
                }
                j = j + 1;
            }
            assert(rest.take(u@.len() - i - 1) =~= rest);
            i = i + 1;
        }
        proof {
            assert(su.skip(u@.len() as int) =~= Seq::<Seq<char>>::empty());
            assert forall|k: Seq<char>| #[trigger]
                h2h_counts(start.pair(k)).2 + draw_pairs(su, k) <= u32::MAX by {
                assert(h2h_counts(self.pair(k)).2 + draw_pairs(su.skip(u@.len() as int), k)
                    == h2h_counts(start.pair(k)).2 + draw_pairs(su, k));
            }
            assert forall|k: Seq<char>| #[trigger]
                h2h_counts(self.pair(k)) == add3(h2h_counts(start.pair(k)), (0nat, 0nat, draw_pairs(su, k))) by {
                assert(h2h_counts(self.pair(k)).2 + draw_pairs(su.skip(u@.len() as int), k)
                    == h2h_counts(start.pair(k)).2 + draw_pairs(su, k));
                assert(draw_pairs(su.skip(u@.len() as int), k) == 0);
                assert(h2h_counts(self.pair(k)).0 == h2h_counts(start.pair(k)).0);
                assert(h2h_counts(self.pair(k)).1 == h2h_counts(start.pair(k)).1);
            }
        }
        true
    }

    /// Whether recording `outcome` keeps every count within `u32` (see
    /// [`MatchRecords::has_room`]); found by recording it on a copy of the
    /// counts.
    pub fn has_room_for(&self, outcome: &MatchOutcome) -> (ok: bool)
        ensures
            ok == self.has_room(outcome_view(*outcome)),
    {
        let mut trial = MatchRecords {
            tallies: copy_tallies(&self.tallies),
            pairs: copy_pairs(&self.pairs),
            history: MatchHistory::new(),
        };
        proof {
            assert(trial.names() =~= self.names());
            assert(trial.keys() =~= self.keys());
            assert forall|n: Seq<char>| #[trigger] trial.tally(n) == self.tally(n) by {
                lemma_find_name(self.names(), n);
                if let Some(i) = find_name(self.names(), n) {
                    assert(trial.tallies@[i as int].wins == self.tallies@[i as int].wins);
                }
            }
            assert forall|k: Seq<char>| #[trigger] trial.pair(k) == self.pair(k) by {
                lemma_find_name(self.keys(), k);
                if let Some(i) = find_name(self.keys(), k) {
                    assert(trial.pairs@[i as int].1 == self.pairs@[i as int].1);
                }
            }
        }
        let ghost t0 = trial;
        let copy = copy_outcome(outcome);
        let ok = trial.record_checked(copy);
        proof {
            let o = outcome_view(*outcome);
            assert(outcome_view(copy) == o);
            assert forall|n: Seq<char>| #[trigger] add3(self.tally(n), tally_delta(o, n)) == add3(
                t0.tally(n),
                tally_delta(o, n),
            ) by {
                assert(t0.tally(n) == self.tally(n));
            }
            assert forall|k: Seq<char>| #[trigger] add3(h2h_counts(self.pair(k)), pair_delta(o, k))
                == add3(h2h_counts(t0.pair(k)), pair_delta(o, k)) by {
                assert(t0.pair(k) == self.pair(k));
            }
        }
        ok
    }

    /// Records one match outcome: its players become known, their tallies
    /// and head-to-head counts grow by [`tally_delta`] and [`pair_delta`],
    /// and the outcome joins the history.
    ///
    /// Returns `false`, and changes nothing, exactly when some count would
    /// leave `u32`.
    pub fn record_outcome(&mut self, outcome: MatchOutcome) -> (ok: bool)
        ensures
            !ok ==> *final(self) == *old(self),
            ok == old(self).has_room(outcome_view(outcome)),
            ok ==> forall|n: Seq<char>| #[trigger]
                final(self).knows(n) == (old(self).knows(n) || participants(
                    outcome_view(outcome),
                ).contains(n)),
            ok ==> forall|n: Seq<char>| #[trigger]
                final(self).tally(n) == add3(old(self).tally(n), tally_delta(outcome_view(outcome), n)),
            ok ==> forall|k: Seq<char>| #[trigger]
                h2h_counts(final(self).pair(k)) == add3(
                    h2h_counts(old(self).pair(k)),
                    pair_delta(outcome_view(outcome), k),
                ),
            ok ==> final(self).history().len() == old(self).history().len() + 1,
            ok ==> final(self).history().drop_last() == old(self).history(),
            ok ==> final(self).history().last().outcome == outcome,
            old(self).wf() ==> final(self).wf(),
    {
        if !self.has_room_for(&outcome) {
            return false;
        }
        self.record_checked(outcome)
    }

    /// Records the outcomes one after the other, as
    /// [`MatchRecords::record_outcome`] does, and says how many were
    /// recorded: all of them, or those before the first one that would take
    /// a count past `u32` (it and those after it are not recorded).
    pub fn record_outcomes(&mut self, outcomes: &[MatchOutcome]) -> (recorded: usize)
        ensures
            recorded <= outcomes@.len(),
            recorded < outcomes@.len() ==> !final(self).has_room(
                outcome_view(outcomes@[recorded as int]),
            ),
            forall|n: Seq<char>| #[trigger]
                final(self).knows(n) == (old(self).knows(n) || outcomes_involve(
                    outcomes_view(outcomes@).take(recorded as int),
                    n,
                )),
            forall|n: Seq<char>| #[trigger]
                final(self).tally(n) == add3(
                    old(self).tally(n),
                    tally_sum(outcomes_view(outcomes@).take(recorded as int), n),
                ),
            forall|k: Seq<char>| #[trigger]
                h2h_counts(final(self).pair(k)) == add3(
                    h2h_counts(old(self).pair(k)),
                    pair_sum(outcomes_view(outcomes@).take(recorded as int), k),
                ),
            final(self).history().len() == old(self).history().len() + recorded,
            final(self).history().take(old(self).history().len() as int) == old(self).history(),
            forall|j: int|
                0 <= j < recorded ==> outcome_view(
                    #[trigger] final(self).history()[old(self).history().len() + j].outcome,
                ) == outcome_view(outcomes@[j]),
            old(self).wf() ==> final(self).wf(),
    {
        let ghost start = *self;
        let ghost os = outcomes_view(outcomes@);
        let mut i: usize = 0;
        assert(os.take(0) =~= Seq::<SpecOutcome>::empty());
        assert(start.history().take(start.history().len() as int) =~= start.history());
        while i < outcomes.len()
            invariant
                i <= outcomes@.len(),
                start == *old(self),
                os == outcomes_view(outcomes@),
                forall|n: Seq<char>| #[trigger]
                    self.knows(n) == (start.knows(n) || outcomes_involve(os.take(i as int), n)),
                forall|n: Seq<char>| #[trigger]
                    self.tally(n) == add3(start.tally(n), tally_sum(os.take(i as int), n)),
                forall|k: Seq<char>| #[trigger]
                    h2h_counts(self.pair(k)) == add3(
                        h2h_counts(start.pair(k)),
                        pair_sum(os.take(i as int), k),
                    ),
                self.history().len() == start.history().len() + i,
                self.history().take(start.history().len() as int) == start.history(),
                forall|j: int|
                    0 <= j < i ==> outcome_view(
                        #[trigger] self.history()[start.history().len() + j].outcome,
                    ) == outcome_view(outcomes@[j]),
                start.wf() ==> self.wf(),
            decreases outcomes@.len() - i,
        {
            let ghost before = *self;
            let next = copy_outcome(&outcomes[i]);
            if !self.record_outcome(next) {
                return i;
            }
            proof {
                let o = os[i as int];
                assert(outcome_view(next) == o);
                assert(os.take(i + 1 as int).drop_last() =~= os.take(i as int));
                assert(os.take(i + 1 as int).last() == o);
                assert forall|n: Seq<char>| #[trigger]
                    self.knows(n) == (start.knows(n) || outcomes_involve(os.take(i + 1 as int), n))
                    by {
                    assert(before.knows(n) == (start.knows(n) || outcomes_involve(
                        os.take(i as int),
                        n,
                    )));
                }
                assert forall|n: Seq<char>| #[trigger]
                    self.tally(n) == add3(start.tally(n), tally_sum(os.take(i + 1 as int), n)) by {
                    assert(before.tally(n) == add3(start.tally(n), tally_sum(os.take(i as int), n)));
                }
                assert forall|k: Seq<char>| #[trigger]
                    h2h_counts(self.pair(k)) == add3(
                        h2h_counts(start.pair(k)),
                        pair_sum(os.take(i + 1 as int), k),
                    ) by {
                    assert(h2h_counts(before.pair(k)) == add3(
                        h2h_counts(start.pair(k)),
                        pair_sum(os.take(i as int), k),
                    ));
                }
                let h0 = start.history().len();
                assert(self.history().drop_last() == before.history());
                assert(self.history().take(h0 as int) =~= before.history().take(h0 as int));
                assert forall|j: int|
                    0 <= j < i + 1 implies outcome_view(
                        #[trigger] self.history()[h0 + j].outcome,
                    ) == outcome_view(outcomes@[j]) by {
                    if j < i {
                        assert(self.history()[h0 + j] == before.history()[h0 + j]);
                    }
                }
            }
            i = i + 1;
        }
        assert(os.take(outcomes@.len() as int) =~= os);
        i
    }

    /// Records one match outcome as [`MatchRecords::record_outcome`] does,
    /// finding out on the way whether some count would leave `u32`; when one
    /// would, the records are left part-way updated.
    fn record_checked(&mut self, outcome: MatchOutcome) -> (ok: bool)
        ensures
            ok == old(self).has_room(outcome_view(outcome)),
            ok ==> forall|n: Seq<char>| #[trigger]
                final(self).knows(n) == (old(self).knows(n) || participants(
                    outcome_view(outcome),
                ).contains(n)),
            ok ==> forall|n: Seq<char>| #[trigger]
                final(self).tally(n) == add3(old(self).tally(n), tally_delta(outcome_view(outcome), n)),
            ok ==> forall|k: Seq<char>| #[trigger]
                h2h_counts(final(self).pair(k)) == add3(
                    h2h_counts(old(self).pair(k)),
                    pair_delta(outcome_view(outcome), k),
                ),
            ok ==> final(self).history().len() == old(self).history().len() + 1,
            ok ==> final(self).history().drop_last() == old(self).history(),
            ok ==> final(self).history().last().outcome == outcome,
            old(self).wf() ==> final(self).wf(),
    {
        let ghost o = outcome_view(outcome);
        let ghost start = *self;
        match &outcome {
            MatchOutcome::Win { winner, loser } => {
                self.ensure_player(winner);
                self.ensure_player(loser);
                let ghost mid = *self;
                if !self.add_tally(winner, 1, 0, 0) {
                    assert(!fits3(add3(start.tally(winner@), tally_delta(o, winner@))));
                    return false;
                }
                let ghost mid2 = *self;
                if !self.add_tally(loser, 0, 1, 0) {
                    assert(!fits3(add3(start.tally(loser@), tally_delta(o, loser@))));
                    return false;
                }
                let ghost mid3 = *self;
                let (key, forward) = pair_key(winner.as_str(), loser.as_str());
                let ghost kv = key@;
                let ok = if forward {
                    self.add_pair(key, 1, 0, 0)
                } else {
                    self.add_pair(key, 0, 1, 0)
                };
                if !ok {
                    assert(!fits3(add3(h2h_counts(start.pair(kv)), pair_delta(o, kv))));
                    return false;
                }
                proof {
                    assert forall|n: Seq<char>| #[trigger]
                        self.tally(n) == add3(start.tally(n), tally_delta(o, n)) by {
                        assert(mid.tally(n) == start.tally(n));
                        assert(mid2.tally(n) == if n == winner@ {
                            add3(mid.tally(n), (1nat, 0nat, 0nat))
                        } else {
                            mid.tally(n)
                        });
                        assert(mid3.tally(n) == if n == loser@ {
                            add3(mid2.tally(n), (0nat, 1nat, 0nat))
                        } else {
                            mid2.tally(n)
                        });
                        assert(self.tally(n) == mid3.tally(n));
                    }
                    assert forall|n: Seq<char>| #[trigger]
                        fits3(add3(start.tally(n), tally_delta(o, n))) by {
                        assert(self.tally(n) == add3(start.tally(n), tally_delta(o, n)));
                    }
                    assert forall|k: Seq<char>| #[trigger]
                        h2h_counts(self.pair(k)) == add3(
                            h2h_counts(start.pair(k)),
                            pair_delta(o, k),
                        ) by {
                        assert(mid3.pair(k) == start.pair(k));
                    }
                    assert forall|k: Seq<char>| #[trigger]
                        fits3(add3(h2h_counts(start.pair(k)), pair_delta(o, k))) by {
                        assert(h2h_counts(self.pair(k)) == add3(
                            h2h_counts(start.pair(k)),
                            pair_delta(o, k),
                        ));
                    }
                    assert(participants(o) =~= seq![winner@, loser@]);
                    assert forall|n: Seq<char>| #[trigger]
                        self.knows(n) == (start.knows(n) || participants(o).contains(n)) by {
                        assert(mid.knows(n) == (start.knows(n) || n == winner@ || n == loser@));
                        assert(mid2.knows(n) == mid.knows(n));
                        assert(mid3.knows(n) == mid2.knows(n));
                        assert(self.knows(n) == mid3.knows(n));
                        if n == winner@ {
                            assert(participants(o)[0] == n);
                        }
                        if n == loser@ {
                            assert(participants(o)[1] == n);
                        }
                        if participants(o).contains(n) {
                            let k = choose|k: int| 0 <= k < 2 && participants(o)[k] == n;
                        }
                    }
                }
            },
            MatchOutcome::Draw { players } => {
                let u = unique_players(players.as_slice());
                proof {
                    lemma_dedup(strings_view(players@));
                }
                self.ensure_players(&u);
                let ghost pre = *self;
                if u.len() > 0 {
                    if u.len() - 1 > 4294967295usize {
                        assert(!fits3(add3(start.tally(strings_view(u@)[0]), tally_delta(o, strings_view(u@)[0])))) by {
                            assert(strings_view(u@).contains(strings_view(u@)[0]));
                        }
                        return false;
                    }
                    let cnt = (u.len() - 1) as u32;
                    if !self.add_draws(&u, cnt) {
                        proof {
                            let i = choose|i: int|
                                0 <= i < u@.len() && !(start.tally(strings_view(u@)[i]).2 + cnt
                                    <= u32::MAX);
                            assert(strings_view(u@).contains(strings_view(u@)[i]));
                            assert(!fits3(add3(start.tally(strings_view(u@)[i]), tally_delta(o, strings_view(u@)[i]))));
                        }
                        return false;
                    }
                }
                let ghost mid = *self;
                if !self.add_draw_pairs(&u) {
                    proof {
                        let k = choose|k: Seq<char>|
                            !(h2h_counts(mid.pair(k)).2 + draw_pairs(strings_view(u@), k) <= u32::MAX);
                        assert(!fits3(add3(h2h_counts(start.pair(k)), pair_delta(o, k))));
                    }
                    return false;
                }
                proof {
                    assert forall|n: Seq<char>| #[trigger]
                        self.tally(n) == add3(start.tally(n), tally_delta(o, n)) by {
                        assert(pre.tally(n) == start.tally(n));
                        assert(self.tally(n) == mid.tally(n));
                        if u@.len() == 0 {
                            assert(!strings_view(u@).contains(n));
                            assert(mid == pre);
                        } else {
                            assert(mid.tally(n) == add3(
                                pre.tally(n),
                                (0nat, 0nat, if strings_view(u@).contains(n) {
                                    (u@.len() - 1) as nat
                                } else {
                                    0nat
                                }),
                            ));
                        }
                    }
                    assert forall|n: Seq<char>| #[trigger]
                        self.knows(n) == (start.knows(n) || participants(o).contains(n)) by {
                        assert(pre.knows(n) == (start.knows(n) || strings_view(u@).contains(n)));
                        assert(mid.knows(n) == pre.knows(n));
                        assert(self.knows(n) == mid.knows(n));
                    }
                    assert forall|n: Seq<char>| #[trigger]
                        fits3(add3(start.tally(n), tally_delta(o, n))) by {
                        assert(self.tally(n) == add3(start.tally(n), tally_delta(o, n)));
                    }
                    assert forall|k: Seq<char>| #[trigger]
                        h2h_counts(self.pair(k)) == add3(
                            h2h_counts(start.pair(k)),
                            pair_delta(o, k),
                        ) by {
                        assert(mid.pair(k) == start.pair(k));
                    }
                    assert forall|k: Seq<char>| #[trigger]
                        fits3(add3(h2h_counts(start.pair(k)), pair_delta(o, k))) by {
                        assert(h2h_counts(self.pair(k)) == add3(
                            h2h_counts(start.pair(k)),
                            pair_delta(o, k),
                        ));
                    }
                }
            },
        }
        let ghost before = *self;
        assert(forall|n: Seq<char>| #[trigger]
            before.knows(n) == (start.knows(n) || participants(o).contains(n)));
        assert(forall|n: Seq<char>| #[trigger]
            before.tally(n) == add3(start.tally(n), tally_delta(o, n)));
        assert(forall|k: Seq<char>| #[trigger]
            h2h_counts(before.pair(k)) == add3(h2h_counts(start.pair(k)), pair_delta(o, k)));
        self.history.record(outcome);
        assert forall|k: Seq<char>| #[trigger]
            h2h_counts(self.pair(k)) == add3(h2h_counts(start.pair(k)), pair_delta(o, k)) by {
            assert(self.pair(k) == before.pair(k));
        }
        assert forall|n: Seq<char>| #[trigger]
            self.knows(n) == (start.knows(n) || participants(o).contains(n)) by {
            assert(self.knows(n) == before.knows(n));
        }
        assert forall|n: Seq<char>| #[trigger]
            self.tally(n) == add3(start.tally(n), tally_delta(o, n)) by {
            assert(self.tally(n) == before.tally(n));
        }
        true
    }
}

// ---------------------------------------------------------------------------
// Laws
// ---------------------------------------------------------------------------

/// Head-to-head records are symmetric: the record of `a` against `b` is the
/// record of `b` against `a` with the two win counts exchanged.
pub proof fn lemma_head_to_head_symmetric(r: MatchRecords, a: Seq<char>, b: Seq<char>)
    requires
        a != b,
    ensures
        r.spec_head_to_head(a, b) == (HeadToHead {
            wins_a: r.spec_head_to_head(b, a).wins_b,
            wins_b: r.spec_head_to_head(b, a).wins_a,
            draws: r.spec_head_to_head(b, a).draws,
        }),
{
    lemma_pair_key_symmetric(a, b);
}

/// Recording a win of `w` over another player `l` adds one to `w`'s wins and
/// `l`'s losses, and one win for `w` to their head-to-head record, read from
/// either side.
pub proof fn lemma_recorded_win(
    before: MatchRecords,
    after: MatchRecords,
    w: Seq<char>,
    l: Seq<char>,
)
    requires
        w != l,
        forall|n: Seq<char>| #[trigger]
            after.tally(n) == add3(
                before.tally(n),
                tally_delta(SpecOutcome::Win { winner: w, loser: l }, n),
            ),
        forall|k: Seq<char>| #[trigger]
            h2h_counts(after.pair(k)) == add3(
                h2h_counts(before.pair(k)),
                pair_delta(SpecOutcome::Win { winner: w, loser: l }, k),
            ),
    ensures
        after.tally(w) == add3(before.tally(w), (1nat, 0nat, 0nat)),
        after.tally(l) == add3(before.tally(l), (0nat, 1nat, 0nat)),
        after.spec_head_to_head(w, l).wins_a == before.spec_head_to_head(w, l).wins_a + 1,
        after.spec_head_to_head(w, l).wins_b == before.spec_head_to_head(w, l).wins_b,
        after.spec_head_to_head(w, l).draws == before.spec_head_to_head(w, l).draws,
        after.spec_head_to_head(l, w).wins_b == before.spec_head_to_head(l, w).wins_b + 1,
        after.spec_head_to_head(l, w).wins_a == before.spec_head_to_head(l, w).wins_a,
{
    lemma_pair_key_symmetric(w, l);
    let k = spec_pair_key(w, l).0;
    assert(h2h_counts(after.pair(k)) == add3(
        h2h_counts(before.pair(k)),
        pair_delta(SpecOutcome::Win { winner: w, loser: l }, k),
    ));
    assert(after.tally(w) == add3(
        before.tally(w),
        tally_delta(SpecOutcome::Win { winner: w, loser: l }, w),
    ));
    assert(after.tally(l) == add3(
        before.tally(l),
        tally_delta(SpecOutcome::Win { winner: w, loser: l }, l),
    ));
}

/// Recording a draw between two different players adds one draw to each
/// and one to their head-to-head record.
pub proof fn lemma_recorded_draw(
    before: MatchRecords,
    after: MatchRecords,
    a: Seq<char>,
    b: Seq<char>,
)
    requires
        a != b,
        forall|n: Seq<char>| #[trigger]
            after.tally(n) == add3(
                before.tally(n),
                tally_delta(SpecOutcome::Draw { players: seq![a, b] }, n),
            ),
        forall|k: Seq<char>| #[trigger]
            h2h_counts(after.pair(k)) == add3(
                h2h_counts(before.pair(k)),
                pair_delta(SpecOutcome::Draw { players: seq![a, b] }, k),
            ),
    ensures
        after.tally(a) == add3(before.tally(a), (0nat, 0nat, 1nat)),
        after.tally(b) == add3(before.tally(b), (0nat, 0nat, 1nat)),
        after.spec_head_to_head(a, b).draws == before.spec_head_to_head(a, b).draws + 1,
        after.spec_head_to_head(a, b).wins_a == before.spec_head_to_head(a, b).wins_a,
        after.spec_head_to_head(a, b).wins_b == before.spec_head_to_head(a, b).wins_b,
{
    let players = seq![a, b];
    assert(players.drop_last() =~= seq![a]);
    assert(seq![a].drop_last() =~= Seq::<Seq<char>>::empty());
    assert(dedup(seq![a]) =~= seq![a]) by {
        assert(dedup(Seq::<Seq<char>>::empty()) =~= Seq::<Seq<char>>::empty());
        assert(!Seq::<Seq<char>>::empty().contains(a));
        assert(dedup(seq![a]) == dedup(seq![a].drop_last()).push(a));
    }
    assert(!seq![a].contains(b)) by {
        if seq![a].contains(b) {
            let k = choose|k: int| 0 <= k < 1 && seq![a][k] == b;
        }
    }
    assert(dedup(players) =~= players);
    assert(players.contains(a)) by {
        assert(players[0] == a);
    }
    assert(players.contains(b)) by {
        assert(players[1] == b);
    }
    let k = spec_pair_key(a, b).0;
    assert(players.drop_first() =~= seq![b]);
    assert(seq![b].drop_first() =~= Seq::<Seq<char>>::empty());
    assert(seq![b].drop_last() =~= Seq::<Seq<char>>::empty());
    assert(draw_pairs(Seq::<Seq<char>>::empty(), k) == 0);
    assert(keys_with(b, Seq::<Seq<char>>::empty(), k) == 0);
    assert(draw_pairs(seq![b], k) == 0);
    assert(keys_with(a, Seq::<Seq<char>>::empty(), k) == 0);
    assert(seq![b].last() == b);
    assert(keys_with(a, seq![b], k) == keys_with(a, seq![b].drop_last(), k) + 1);
    assert(keys_with(a, seq![b], k) == 1);
    assert(draw_pairs(players, k) == 1);
    assert(h2h_counts(after.pair(k)) == add3(
        h2h_counts(before.pair(k)),
        pair_delta(SpecOutcome::Draw { players }, k),
    ));
    assert(after.tally(a) == add3(before.tally(a), tally_delta(SpecOutcome::Draw { players }, a)));
    assert(after.tally(b) == add3(before.tally(b), tally_delta(SpecOutcome::Draw { players }, b)));
}

/// Every match `recent_matches_for_player` can return involves the player.
pub proof fn lemma_newest_first_involves(ms: Seq<HistoricalMatch>, player: Seq<char>)
    ensures
        forall|i: int|
            0 <= i < newest_first(ms, player).len() ==> involves(
                outcome_view(#[trigger] newest_first(ms, player)[i].outcome),
                player,
            ),
        newest_first(ms, player).len() <= ms.len(),
    decreases ms.len(),
{
    if ms.len() > 0 {
        lemma_newest_first_involves(ms.drop_last(), player);
        let rest = newest_first(ms.drop_last(), player);
        if involves(outcome_view(ms.last().outcome), player) {
            assert forall|i: int|
                0 <= i < newest_first(ms, player).len() implies involves(
                outcome_view(#[trigger] newest_first(ms, player)[i].outcome),
                player,
            ) by {
                if i > 0 {
                    assert(newest_first(ms, player)[i] == rest[i - 1]);
                }
            }
        }
    }
}

} // verus!

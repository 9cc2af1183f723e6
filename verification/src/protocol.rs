//! Messages exchanged between the server and visualization clients.
//!
//! The wire encodings (MessagePack and JSON) are produced outside the
//! library; these are the plain values they carry.
use vstd::prelude::*;

verus! {

/// Protocol version for negotiation.
pub const PROTOCOL_VERSION: u32 = 1;

/// Client-to-server messages.
#[derive(Debug, Clone, PartialEq)]
pub enum ClientMessage {
    /// Request the list of active and historical battle instances.
    ListInstances,
    /// Subscribe to updates from a specific battle instance.
    Subscribe { instance_id: String },
    /// Unsubscribe from an instance.
    Unsubscribe { instance_id: String },
    /// Request current leaderboard state.
    LeaderboardQuery { top_n: usize },
    /// Upload a warrior source file for compilation and registration.
    LoadWarrior { source: String },
    /// Start a new tournament.
    StartTournament { warrior_ids: Vec<String> },
    /// Pause/resume a running instance.
    TogglePause { instance_id: String },
}

/// Summary information for an instance in the orchestrator.
#[derive(Debug, Clone, PartialEq, Eq)]
pub struct InstanceInfo {
    pub id: String,
    pub warrior_names: Vec<String>,
    pub core_size: usize,
    pub cycle: u64,
    pub status: InstanceStatus,
}

/// Runtime status for an instance.
#[derive(Debug, Clone, Copy, PartialEq, Eq, Structural)]
pub enum InstanceStatus {
    Running,
    Paused,
    Complete,
}

/// Summary information for a warrior participating in an instance.
#[derive(Debug, Clone, PartialEq, Eq)]
pub struct WarriorInfo {
    pub id: u32,
    pub name: String,
    pub author: String,
    pub process_count: usize,
    pub color_index: u32,
}

/// Snapshot information for a single core cell.
#[derive(Debug, Clone, PartialEq, Eq)]
pub struct CellInfo {
    pub address: usize,
    pub owner: Option<u32>,
    pub instruction_summary: String,
}

/// A single event within a cycle (for visualization).
#[derive(Debug, Clone, Copy, PartialEq, Eq, Structural)]
pub enum CycleEvent {
    Read { address: usize, warrior_id: u32 },
    Write { address: usize, warrior_id: u32 },
    Execute { address: usize, warrior_id: u32 },
    ProcessCreated { warrior_id: u32, address: usize },
    ProcessKilled { warrior_id: u32, address: usize },
}

/// Battle result as transmitted over the wire.
#[derive(Debug, Clone, PartialEq, Eq)]
pub enum BattleResultMsg {
    Win { winner: String },
    Draw { survivors: Vec<String> },
}

/// The names of a sequence of strings.
pub open spec fn strings_view(v: Seq<String>) -> Seq<Seq<char>> {
    v.map_values(|s: String| s@)
}

/// The mathematical value of a [`BattleResultMsg`].
pub ghost enum SpecResultMsg {
    Win { winner: Seq<char> },
    Draw { survivors: Seq<Seq<char>> },
}

pub open spec fn result_msg_view(m: BattleResultMsg) -> SpecResultMsg {
    match m {
        BattleResultMsg::Win { winner } => SpecResultMsg::Win { winner: winner@ },
        BattleResultMsg::Draw { survivors } => SpecResultMsg::Draw {
            survivors: strings_view(survivors@),
        },
    }
}

/// A copy of `v`.
pub fn copy_strings(v: &Vec<String>) -> (r: Vec<String>)
    ensures
        strings_view(r@) == strings_view(v@),
{
    let mut r: Vec<String> = Vec::new();
    let mut i: usize = 0;
    while i < v.len()
        invariant
            i <= v@.len(),
            strings_view(r@) == strings_view(v@).take(i as int),
        decreases v@.len() - i,
    {
        let ghost before = r@;
        let s = v[i].clone();
        r.push(s);
        assert(strings_view(r@) =~= strings_view(before).push(v@[i as int]@));
        assert(strings_view(v@).take(i + 1 as int) =~= strings_view(v@).take(i as int).push(
            v@[i as int]@,
        ));
        i = i + 1;
    }
    assert(strings_view(v@).take(v@.len() as int) =~= strings_view(v@));
    r
}

} // verus!

//! Server-side bookkeeping: the placeholder orchestrator that hands out
//! warrior and arena ids and tracks arena instances, and the parsing of
//! the log level setting.
use vstd::multiset::Multiset;
use vstd::prelude::*;

use crate::protocol::{copy_strings, strings_view, CellInfo, InstanceInfo, InstanceStatus};
use crate::symbols::{find_name, lemma_find_name};
use crate::text::{
    chars_less, chars_of, decimal, lemma_lex_order, lex_lt, lower_seq, string_of, to_lower, trim,
    trimmed, with_number,
};

verus! {

broadcast use vstd::seq_lib::group_to_multiset_ensures;

/// The mathematical value of an [`InstanceInfo`].
pub ghost struct InfoView {
    pub id: Seq<char>,
    pub warrior_names: Seq<Seq<char>>,
    pub core_size: usize,
    pub cycle: u64,
    pub status: InstanceStatus,
}

pub open spec fn info_view(i: InstanceInfo) -> InfoView {
    InfoView {
        id: i.id@,
        warrior_names: strings_view(i.warrior_names@),
        core_size: i.core_size,
        cycle: i.cycle,
        status: i.status,
    }
}

pub open spec fn info_view_fn() -> spec_fn(InstanceInfo) -> InfoView {
    |i: InstanceInfo| info_view(i)
}

fn copy_info(info: &InstanceInfo) -> (r: InstanceInfo)
    ensures
        info_view(r) == info_view(*info),
{
    InstanceInfo {
        id: info.id.clone(),
        warrior_names: copy_strings(&info.warrior_names),
        core_size: info.core_size,
        cycle: info.cycle,
        status: info.status,
    }
}

/// Ordered by id.
pub open spec fn sorted_by_id(s: Seq<InfoView>) -> bool {
    forall|i: int, j: int| 0 <= i < j < s.len() ==> !lex_lt(#[trigger] s[j].id, #[trigger] s[i].id)
}

fn sort_by_id(items: Vec<InstanceInfo>) -> (r: Vec<InstanceInfo>)
    ensures
        sorted_by_id(r@.map_values(info_view_fn())),
        r@.map_values(info_view_fn()).to_multiset() == items@.map_values(info_view_fn()).to_multiset(),
{
    let ghost f = info_view_fn();
    let ghost initial = items@.map_values(f).to_multiset();
    let mut input = items;
    let mut out: Vec<InstanceInfo> = Vec::new();
    assert(out@.map_values(f) =~= Seq::<InfoView>::empty());
    while input.len() > 0
        invariant
            f == info_view_fn(),
            sorted_by_id(out@.map_values(f)),
            input@.map_values(f).to_multiset().add(out@.map_values(f).to_multiset()) == initial,
        decreases input@.len(),
    {
        let ghost before_in = input@.map_values(f);
        let x = input.pop().unwrap();
        assert(before_in =~= input@.map_values(f).push(f(x)));
        let ghost xv = f(x);
        let ghost s = out@.map_values(f);
        let xid = chars_of(x.id.as_str());
        let mut p: usize = 0;
        while p < out.len() && !chars_less(xid.as_slice(), chars_of(out[p].id.as_str()).as_slice())
            invariant
                p <= out@.len(),
                s == out@.map_values(f),
                f == info_view_fn(),
                xv == f(x),
                xid@ == xv.id,
                forall|k: int| 0 <= k < p ==> !lex_lt(xv.id, #[trigger] s[k].id),
            decreases out@.len() - p,
        {
            p = p + 1;
        }
        proof {
            if p < s.len() {
                assert(lex_lt(xv.id, s[p as int].id));
                assert forall|k: int| p <= k < s.len() implies lex_lt(xv.id, #[trigger] s[k].id) by {
                    if k > p {
                        assert(!lex_lt(s[k].id, s[p as int].id));
                    }
                    lemma_lex_order(xv.id, s[p as int].id, s[k].id);
                    lemma_lex_order(s[k].id, s[p as int].id, xv.id);
                    lemma_lex_order(s[p as int].id, s[k].id, xv.id);
                }
            }
        }
        out.insert(p, x);
        let ghost t = out@.map_values(f);
        assert(t =~= s.insert(p as int, xv));
        proof {
            assert forall|i: int, j: int| 0 <= i < j < t.len() implies !lex_lt(
                #[trigger] t[j].id,
                #[trigger] t[i].id,
            ) by {
                if j < p {
                    assert(t[i] == s[i] && t[j] == s[j]);
                } else if j == p {
                    assert(t[i] == s[i]);
                } else if i == p {
                    assert(t[j] == s[j - 1]);
                    lemma_lex_order(xv.id, s[j - 1].id, xv.id);
                } else if i < p {
                    assert(t[i] == s[i] && t[j] == s[j - 1]);
                } else {
                    assert(t[i] == s[i - 1] && t[j] == s[j - 1]);
                }
            }
        }
    }
    assert(input@.map_values(f) =~= Seq::<InfoView>::empty());
    assert(input@.map_values(f).to_multiset() =~= Multiset::<InfoView>::empty());
    out
}

/// The cells a snapshot of an instance with `warriors` warriors shows:
/// sixteen `DAT #<address>` cells owned in turn by each warrior.
pub open spec fn snapshot_cell(address: nat, warriors: nat) -> (nat, Option<u32>, Seq<char>) {
    (
        address,
        Some((address % (if warriors == 0 {
            1
        } else {
            warriors
        })) as u32),
        "DAT #"@ + decimal(address),
    )
}

pub open spec fn cell_view(c: CellInfo) -> (nat, Option<u32>, Seq<char>) {
    (c.address as nat, c.owner, c.instruction_summary@)
}

/// The instance after a pause toggle: running and paused swap, and one
/// more cycle is counted.
pub open spec fn toggled(v: InfoView) -> InfoView {
    InfoView {
        status: if v.status == InstanceStatus::Running {
            InstanceStatus::Paused
        } else {
            InstanceStatus::Running
        },
        cycle: (v.cycle + 1) as u64,
        ..v
    }
}

/// A freshly started arena number `n` running `warriors`.
pub open spec fn new_arena(n: nat, warriors: Seq<Seq<char>>) -> InfoView {
    InfoView {
        id: "arena-"@ + decimal(n),
        warrior_names: warriors,
        core_size: 8000,
        cycle: 0,
        status: InstanceStatus::Running,
    }
}

/// The seed instance every placeholder orchestrator starts with.
pub open spec fn seed_arena() -> InfoView {
    InfoView {
        id: "arena-1"@,
        warrior_names: seq!["Imp"@, "Dwarf"@],
        core_size: 8000,
        cycle: 0,
        status: InstanceStatus::Running,
    }
}

/// Instances the server hosts before a real orchestrator is attached.
pub struct PlaceholderOrchestrator {
    instances: Vec<InstanceInfo>,
    next_instance_id: usize,
    next_warrior_id: usize,
}

impl PlaceholderOrchestrator {
    pub closed spec fn infos(&self) -> Seq<InfoView> {
        self.instances@.map_values(info_view_fn())
    }

    pub closed spec fn ids(&self) -> Seq<Seq<char>> {
        self.infos().map_values(|v: InfoView| v.id)
    }

    /// The instance with id `id`.
    pub closed spec fn instance(&self, id: Seq<char>) -> Option<InfoView> {
        match find_name(self.ids(), id) {
            Some(i) => Some(self.infos()[i as int]),
            None => None,
        }
    }

    /// The number the next arena id will carry.
    pub closed spec fn next_instance_number(&self) -> nat {
        self.next_instance_id as nat
    }

    /// The number the next warrior id will carry.
    pub closed spec fn next_warrior_number(&self) -> nat {
        self.next_warrior_id as nat
    }

    /// `self` is `before` with instance `id` set to `v` and the counters kept.
    pub open spec fn updates(&self, before: Self, id: Seq<char>, v: InfoView) -> bool {
        &&& self.instance(id) == Some(v)
        &&& forall|other: Seq<char>|
            other != id ==> #[trigger] self.instance(other) == before.instance(other)
        &&& self.next_instance_number() == before.next_instance_number()
        &&& self.next_warrior_number() == before.next_warrior_number()
    }

    /// No two instances share an id.
    pub closed spec fn wf(&self) -> bool {
        forall|i: int, j: int| 0 <= i < j < self.ids().len() ==> self.ids()[i] != self.ids()[j]
    }

    /// The number the next warrior id will carry.
    pub fn next_warrior_id(&self) -> (n: usize)
        ensures
            n == self.next_warrior_number(),
    {
        self.next_warrior_id
    }

    /// The number the next arena id will carry.
    pub fn next_instance_id(&self) -> (n: usize)
        ensures
            n == self.next_instance_number(),
    {
        self.next_instance_id
    }

    fn index_of(&self, id: &[char]) -> (r: Option<usize>)
        ensures
            match r {
                Some(i) => find_name(self.ids(), id@) == Some(i as nat),
                None => find_name(self.ids(), id@) is None,
            },
    {
        let ghost ids = self.ids();
        let mut i: usize = 0;
        while i < self.instances.len()
            invariant
                i <= self.instances@.len(),
                ids == self.ids(),
                forall|j: int| 0 <= j < i ==> ids[j] != id@,
            decreases self.instances@.len() - i,
        {
            let candidate = chars_of(self.instances[i].id.as_str());
            if crate::text::chars_equal(candidate.as_slice(), id) {
                proof {
                    lemma_find_name(ids, id@);
                    assert(ids[i as int] == id@);
                    if let Some(k) = find_name(ids, id@) {
                        if k < i {
                            assert(ids[k as int] != id@);
                        }
                    }
                }
                return Some(i);
            }
            i = i + 1;
        }
        proof {
            lemma_find_name(ids, id@);
        }
        None
    }

    /// The instance with id `id`, if any.
    pub fn instance_info(&self, id: &str) -> (r: Option<InstanceInfo>)
        ensures
            match r {
                Some(info) => self.instance(id@) == Some(info_view(info)),
                None => self.instance(id@) is None,
            },
    {
        let key = chars_of(id);
        match self.index_of(key.as_slice()) {
            Some(i) => {
                proof {
                    lemma_find_name(self.ids(), id@);
                }
                Some(copy_info(&self.instances[i]))
            },
            None => None,
        }
    }

    /// Every instance, ordered by id.
    pub fn list_instances(&self) -> (r: Vec<InstanceInfo>)
        ensures
            r@.map_values(info_view_fn()).to_multiset() == self.infos().to_multiset(),
            sorted_by_id(r@.map_values(info_view_fn())),
    {
        let ghost f = info_view_fn();
        let mut copies: Vec<InstanceInfo> = Vec::new();
        let mut i: usize = 0;
        while i < self.instances.len()
            invariant
                i <= self.instances@.len(),
                f == info_view_fn(),
                copies@.map_values(f) == self.instances@.take(i as int).map_values(f),
            decreases self.instances@.len() - i,
        {
            let ghost before = copies@;
            let c = copy_info(&self.instances[i]);
            copies.push(c);
            assert(copies@.map_values(f) =~= before.map_values(f).push(f(c)));
            assert(self.instances@.take(i + 1 as int).map_values(f) =~= self.instances@.take(
                i as int,
            ).map_values(f).push(f(self.instances@[i as int])));
            i = i + 1;
        }
        assert(self.instances@.take(self.instances@.len() as int) =~= self.instances@);
        sort_by_id(copies)
    }

    /// The cells of a snapshot of instance `instance_id` (see
    /// [`snapshot_cell`]), or `None` for an unknown instance.
    pub fn snapshot_for(&self, instance_id: &str) -> (r: Option<Vec<CellInfo>>)
        ensures
            r is Some <==> self.instance(instance_id@) is Some,
            r matches Some(cells) ==> cells@.len() == 16 && forall|a: int|
                0 <= a < 16 ==> cell_view(#[trigger] cells@[a]) == snapshot_cell(
                    a as nat,
                    self.instance(instance_id@)->0.warrior_names.len(),
                ),
    {
        let key = chars_of(instance_id);
        let i = match self.index_of(key.as_slice()) {
            Some(i) => i,
            None => {
                return None;
            },
        };
        proof {
            lemma_find_name(self.ids(), instance_id@);
        }
        let n = self.instances[i].warrior_names.len();
        let modulus = if n == 0 {
            1
        } else {
            n
        };
        let mut cells: Vec<CellInfo> = Vec::new();
        let mut address: usize = 0;
        while address < 16
            invariant
                address <= 16,
                cells@.len() == address,
                modulus == (if n == 0 {
                    1
                } else {
                    n
                }),
                forall|a: int|
                    0 <= a < address ==> cell_view(#[trigger] cells@[a]) == snapshot_cell(
                        a as nat,
                        n as nat,
                    ),
            decreases 16 - address,
        {
            let owner = (address % modulus) as u32;
            let summary = with_number("DAT #", address as u64);
            cells.push(CellInfo { address, owner: Some(owner), instruction_summary: summary });
            address = address + 1;
        }
        Some(cells)
    }

    /// Hands out the next warrior id, `warrior-<n>`; an empty (or blank)
    /// source is refused.
    pub fn load_warrior(&mut self, source: &str) -> (r: Result<String, String>)
        requires
            old(self).next_warrior_number() < usize::MAX,
        ensures
            r is Err <==> trim(source@).len() == 0,
            r matches Err(m) ==> m@ == "warrior source cannot be empty"@ && *final(self) == *old(
                self,
            ),
            r matches Ok(id) ==> id@ == "warrior-"@ + decimal(old(self).next_warrior_number())
                && final(self).next_warrior_number() == old(self).next_warrior_number() + 1
                && final(self).infos() == old(self).infos() && final(self).next_instance_number()
                == old(self).next_instance_number(),
            final(self).wf() == old(self).wf(),
    {
        let chars = chars_of(source);
        let t = trimmed(chars.as_slice());
        if t.len() == 0 {
            return Err("warrior source cannot be empty".to_owned());
        }
        let id = with_number("warrior-", self.next_warrior_id as u64);
        self.next_warrior_id = self.next_warrior_id + 1;
        assert(self.ids() =~= old(self).ids());
        Ok(id)
    }

    /// Opens a new arena `arena-<n>` running the given warriors; an empty
    /// list is refused.
    pub fn start_tournament(&mut self, warrior_ids: Vec<String>) -> (r: Result<InstanceInfo, String>)
        requires
            old(self).wf(),
            old(self).next_instance_number() < usize::MAX,
        ensures
            final(self).wf(),
            r is Err <==> warrior_ids@.len() == 0,
            r matches Err(m) ==> m@ == "at least one warrior id is required to start a tournament"@
                && *final(self) == *old(self),
            r matches Ok(info) ==> info_view(info) == new_arena(
                old(self).next_instance_number(),
                strings_view(warrior_ids@),
            ) && final(self).instance(info.id@) == Some(info_view(info)) && (forall|
                other: Seq<char>,
            |
                other != info.id@ ==> #[trigger] final(self).instance(other) == old(
                    self,
                ).instance(other)) && final(self).next_instance_number() == old(
                self,
            ).next_instance_number() + 1 && final(self).next_warrior_number() == old(
                self,
            ).next_warrior_number(),
    {
        if warrior_ids.len() == 0 {
            return Err("at least one warrior id is required to start a tournament".to_owned());
        }
        let id = with_number("arena-", self.next_instance_id as u64);
        let info = InstanceInfo {
            id,
            warrior_names: warrior_ids,
            core_size: 8000,
            cycle: 0,
            status: InstanceStatus::Running,
        };
        self.next_instance_id = self.next_instance_id + 1;
        let stored = copy_info(&info);
        self.put(stored);
        Ok(info)
    }

    /// Inserts `info`, replacing the instance with the same id.
    fn put(&mut self, info: InstanceInfo)
        requires
            old(self).wf(),
        ensures
            final(self).wf(),
            final(self).instance(info.id@) == Some(info_view(info)),
            forall|other: Seq<char>|
                other != info.id@ ==> #[trigger] final(self).instance(other) == old(self).instance(
                    other,
                ),
            final(self).next_instance_number() == old(self).next_instance_number(),
            final(self).next_warrior_number() == old(self).next_warrior_number(),
    {
        let ghost old_ids = self.ids();
        let ghost old_infos = self.infos();
        let key = chars_of(info.id.as_str());
        let ghost iv = info_view(info);
        proof {
            lemma_find_name(old_ids, iv.id);
        }
        match self.index_of(key.as_slice()) {
            Some(i) => {
                self.instances.set(i, info);
                assert(self.infos() =~= old_infos.update(i as int, iv));
                assert(self.ids() =~= old_ids);
                assert forall|a: int, b: int|
                    0 <= a < b < self.ids().len() implies self.ids()[a] != self.ids()[b] by {
                    assert(old_ids[a] != old_ids[b]);
                }
                proof {
                    assert forall|other: Seq<char>|
                        other != iv.id implies #[trigger] self.instance(other) == old(
                            self,
                        ).instance(other) by {
                        lemma_find_name(old_ids, other);
                    }
                }
            },
            None => {
                self.instances.push(info);
                assert(self.infos() =~= old_infos.push(iv));
                assert(self.ids().drop_last() =~= old_ids);
                assert(self.ids() =~= old_ids.push(iv.id));
                assert forall|a: int, b: int|
                    0 <= a < b < self.ids().len() implies self.ids()[a] != self.ids()[b] by {
                    if b == old_ids.len() {
                        assert(old_ids[a] != iv.id);
                    } else {
                        assert(old_ids[a] != old_ids[b]);
                    }
                }
                proof {
                    lemma_find_name(self.ids(), iv.id);
                    assert forall|other: Seq<char>|
                        other != iv.id implies #[trigger] self.instance(other) == old(
                            self,
                        ).instance(other) by {
                        lemma_find_name(old_ids, other);
                    }
                }
            },
        }
    }

    /// Pauses a running instance or resumes a paused one, counting a cycle;
    /// unknown and complete instances are refused.
    pub fn toggle_pause(&mut self, instance_id: &str) -> (r: Result<InstanceInfo, String>)
        requires
            old(self).wf(),
            old(self).instance(instance_id@) matches Some(v) ==> v.cycle < u64::MAX,
        ensures
            final(self).wf(),
            match old(self).instance(instance_id@) {
                None => (r matches Err(m) && m@ == "unknown instance: "@ + instance_id@)
                    && *final(self) == *old(self),
                Some(v) => if v.status == InstanceStatus::Complete {
                    (r matches Err(m) && m@ == "instance "@ + instance_id@
                        + " is already complete"@) && *final(self) == *old(self)
                } else {
                    r matches Ok(info) && info_view(info) == toggled(v) && final(self).updates(
                        *old(self),
                        instance_id@,
                        toggled(v),
                    )
                },
            },
    {
        let key = chars_of(instance_id);
        let i = match self.index_of(key.as_slice()) {
            Some(i) => i,
            None => {
                let mut msg = chars_of("unknown instance: ");
                let mut rest = chars_of(instance_id);
                msg.append(&mut rest);
                return Err(string_of(msg.as_slice()));
            },
        };
        proof {
            lemma_find_name(self.ids(), instance_id@);
        }
        let current = copy_info(&self.instances[i]);
        let status = match current.status {
            InstanceStatus::Running => InstanceStatus::Paused,
            InstanceStatus::Paused => InstanceStatus::Running,
            InstanceStatus::Complete => {
                let mut msg = chars_of("instance ");
                let mut middle = chars_of(instance_id);
                let mut tail = chars_of(" is already complete");
                msg.append(&mut middle);
                msg.append(&mut tail);
                return Err(string_of(msg.as_slice()));
            },
        };
        let updated = InstanceInfo {
            id: current.id,
            warrior_names: current.warrior_names,
            core_size: current.core_size,
            cycle: current.cycle + 1,
            status,
        };
        let result = copy_info(&updated);
        self.put(updated);
        Ok(result)
    }
}

impl Default for PlaceholderOrchestrator {
    /// One running arena, `arena-1`, between `Imp` and `Dwarf`.
    fn default() -> (r: Self)
        ensures
            r.wf(),
            r.infos() == seq![seed_arena()],
            r.next_instance_number() == 2,
            r.next_warrior_number() == 1,
    {
        let mut names: Vec<String> = Vec::new();
        names.push("Imp".to_owned());
        names.push("Dwarf".to_owned());
        let seed = InstanceInfo {
            id: "arena-1".to_owned(),
            warrior_names: names,
            core_size: 8000,
            cycle: 0,
            status: InstanceStatus::Running,
        };
        let mut instances: Vec<InstanceInfo> = Vec::new();
        instances.push(seed);
        let r = PlaceholderOrchestrator { instances, next_instance_id: 2, next_warrior_id: 1 };
        assert(strings_view(seed.warrior_names@) =~= seq!["Imp"@, "Dwarf"@]);
        assert(r.infos() =~= seq![info_view(seed)]);
        r
    }
}

// ---------------------------------------------------------------------------
// Log levels
// ---------------------------------------------------------------------------

/// Verbosity of the server's log.
#[derive(Debug, Clone, Copy, PartialEq, Eq, Structural)]
pub enum LogLevel {
    Trace,
    Debug,
    Info,
    Warn,
    Error,
}

/// The level a setting names, ignoring ASCII case.
pub open spec fn spec_log_level(value: Seq<char>) -> Option<LogLevel> {
    let v = lower_seq(value);
    if v == "trace"@ {
        Some(LogLevel::Trace)
    } else if v == "debug"@ {
        Some(LogLevel::Debug)
    } else if v == "info"@ {
        Some(LogLevel::Info)
    } else if v == "warn"@ || v == "warning"@ {
        Some(LogLevel::Warn)
    } else if v == "error"@ {
        Some(LogLevel::Error)
    } else {
        None
    }
}

/// Parses a log level setting (see [`spec_log_level`]); anything else is
/// refused with `unsupported log level: <value in lower case>`.
pub fn parse_log_level(value: &str) -> (r: Result<LogLevel, String>)
    ensures
        match r {
            Ok(level) => spec_log_level(value@) == Some(level),
            Err(m) => spec_log_level(value@) is None && m@ == "unsupported log level: "@
                + lower_seq(value@),
        },
{
    let lowered = to_lower(chars_of(value).as_slice());
    let trace = chars_of("trace");
    let debug = chars_of("debug");
    let info = chars_of("info");
    let warn = chars_of("warn");
    let warning = chars_of("warning");
    let error = chars_of("error");
    if crate::text::chars_equal(lowered.as_slice(), trace.as_slice()) {
        Ok(LogLevel::Trace)
    } else if crate::text::chars_equal(lowered.as_slice(), debug.as_slice()) {
        Ok(LogLevel::Debug)
    } else if crate::text::chars_equal(lowered.as_slice(), info.as_slice()) {
        Ok(LogLevel::Info)
    } else if crate::text::chars_equal(lowered.as_slice(), warn.as_slice())
        || crate::text::chars_equal(lowered.as_slice(), warning.as_slice()) {
        Ok(LogLevel::Warn)
    } else if crate::text::chars_equal(lowered.as_slice(), error.as_slice()) {
        Ok(LogLevel::Error)
    } else {
        let mut msg = chars_of("unsupported log level: ");
        let mut rest = lowered;
        msg.append(&mut rest);
        Err(string_of(msg.as_slice()))
    }
}

} // verus!

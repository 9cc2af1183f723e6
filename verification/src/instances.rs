//! The battle instances a tournament opens: each gets the next id
//! `battle-<n>`, keeps the names of its warriors and its lifecycle status,
//! and can be found again by id or listed in id order.
//!
//! Broadcasting an instance's events to its followers is channel plumbing
//! done beside the registry.
use vstd::multiset::Multiset;
use vstd::prelude::*;

use crate::battle::BattleInstanceStatus;
use crate::protocol::{copy_strings, strings_view};
use crate::text::{
    chars_less, chars_of, decimal, lemma_decimal_injective, lemma_lex_order, lex_lt, same_text,
    with_number,
};

verus! {

broadcast use vstd::seq_lib::group_to_multiset_ensures;

/// A battle instance: its id, the names of its warriors and its status.
#[derive(Debug)]
pub struct BattleInstance {
    id: String,
    warrior_ids: Vec<String>,
    status: BattleInstanceStatus,
}

/// The mathematical value of a [`BattleInstance`].
pub ghost struct InstanceView {
    pub id: Seq<char>,
    pub warriors: Seq<Seq<char>>,
    pub status: BattleInstanceStatus,
}

/// The id of the `n`-th instance opened, counting from 1.
pub open spec fn numbered_id(n: nat) -> Seq<char> {
    "battle-"@ + decimal(n)
}

/// Ordered by id, as strings compare.
pub open spec fn sorted_by_id(s: Seq<InstanceView>) -> bool {
    forall|i: int, j: int| 0 <= i < j < s.len() ==> !lex_lt(#[trigger] s[j].id, #[trigger] s[i].id)
}

impl BattleInstance {
    pub closed spec fn view(&self) -> InstanceView {
        InstanceView {
            id: self.id@,
            warriors: strings_view(self.warrior_ids@),
            status: self.status,
        }
    }

    /// A pending instance.
    pub fn new(id: String, warrior_ids: Vec<String>) -> (r: Self)
        ensures
            r.view() == (InstanceView {
                id: id@,
                warriors: strings_view(warrior_ids@),
                status: BattleInstanceStatus::Pending,
            }),
    {
        BattleInstance { id, warrior_ids, status: BattleInstanceStatus::Pending }
    }

    pub fn id(&self) -> (r: &str)
        ensures
            r@ == self.view().id,
    {
        self.id.as_str()
    }

    pub fn warrior_ids(&self) -> (r: &[String])
        ensures
            strings_view(r@) == self.view().warriors,
    {
        self.warrior_ids.as_slice()
    }

    pub fn status(&self) -> (r: BattleInstanceStatus)
        ensures
            r == self.view().status,
    {
        self.status
    }

    pub fn set_status(&mut self, status: BattleInstanceStatus)
        ensures
            final(self).view() == (InstanceView { status, ..old(self).view() }),
    {
        self.status = status;
    }

    /// A copy of this instance.
    pub fn copy(&self) -> (r: Self)
        ensures
            r.view() == self.view(),
    {
        BattleInstance {
            id: self.id.clone(),
            warrior_ids: copy_strings(&self.warrior_ids),
            status: self.status,
        }
    }
}

/// The instances opened so far, numbered in opening order.
pub struct InstanceManager {
    next_id: usize,
    instances: Vec<BattleInstance>,
}

impl InstanceManager {
    /// The instances, in the order they were opened.
    pub closed spec fn entries(&self) -> Seq<InstanceView> {
        self.instances@.map_values(|i: BattleInstance| i.view())
    }

    /// The instance `k`-th opened carries the id `battle-<k + 1>`.
    pub closed spec fn wf(&self) -> bool {
        &&& self.instances@.len() == self.next_id
        &&& forall|k: int|
            0 <= k < self.instances@.len() ==> (#[trigger] self.instances@[k]).view().id
                == numbered_id((k + 1) as nat)
    }

    /// How many instances have been opened.
    pub closed spec fn opened(&self) -> nat {
        self.next_id as nat
    }

    pub fn new() -> (r: Self)
        ensures
            r.wf(),
            r.entries() == Seq::<InstanceView>::empty(),
            r.opened() == 0,
    {
        let r = InstanceManager { next_id: 0, instances: Vec::new() };
        assert(r.entries() =~= Seq::<InstanceView>::empty());
        r
    }

    /// How many instances have been opened.
    pub fn opened_count(&self) -> (r: usize)
        ensures
            r == self.opened(),
    {
        self.next_id
    }

    /// Opens a pending instance for `warrior_ids` under the next id, and
    /// returns that id.
    pub fn create_instance(&mut self, warrior_ids: Vec<String>) -> (id: String)
        requires
            old(self).wf(),
            old(self).opened() < usize::MAX,
        ensures
            final(self).wf(),
            id@ == numbered_id(old(self).opened() + 1),
            final(self).opened() == old(self).opened() + 1,
            final(self).entries() == old(self).entries().push(
                InstanceView {
                    id: id@,
                    warriors: strings_view(warrior_ids@),
                    status: BattleInstanceStatus::Pending,
                },
            ),
    {
        self.next_id = self.next_id + 1;
        let id = with_number("battle-", self.next_id as u64);
        let instance = BattleInstance::new(id.clone(), warrior_ids);
        let ghost before = self.instances@;
        self.instances.push(instance);
        assert(self.entries() =~= before.map_values(|i: BattleInstance| i.view()).push(
            instance.view(),
        ));
        id
    }

    /// Where the instance with id `instance_id` stands, if it is there.
    fn position(&self, instance_id: &str) -> (r: Option<usize>)
        ensures
            match r {
                Some(k) => k < self.entries().len() && self.entries()[k as int].id
                    == instance_id@,
                None => forall|k: int|
                    0 <= k < self.entries().len() ==> self.entries()[k].id != instance_id@,
            },
    {
        let mut k: usize = 0;
        while k < self.instances.len()
            invariant
                k <= self.instances@.len(),
                forall|j: int| 0 <= j < k ==> self.entries()[j].id != instance_id@,
            decreases self.instances@.len() - k,
        {
            if same_text(&self.instances[k].id, instance_id) {
                return Some(k);
            }
            k = k + 1;
        }
        None
    }

    /// The instance with id `instance_id`, if one was opened.
    pub fn get(&self, instance_id: &str) -> (r: Option<&BattleInstance>)
        ensures
            match r {
                Some(i) => exists|k: int|
                    0 <= k < self.entries().len() && self.entries()[k] == i.view()
                        && i.view().id == instance_id@,
                None => forall|k: int|
                    0 <= k < self.entries().len() ==> self.entries()[k].id != instance_id@,
            },
    {
        match self.position(instance_id) {
            Some(k) => Some(&self.instances[k]),
            None => None,
        }
    }

    /// Sets the status of the instance with id `instance_id`; says whether
    /// there was one.
    pub fn set_status(&mut self, instance_id: &str, status: BattleInstanceStatus) -> (found: bool)
        requires
            old(self).wf(),
        ensures
            final(self).wf(),
            final(self).opened() == old(self).opened(),
            found == exists|k: int|
                0 <= k < old(self).entries().len() && old(self).entries()[k].id == instance_id@,
            final(self).entries().len() == old(self).entries().len(),
            forall|k: int|
                0 <= k < old(self).entries().len() ==> #[trigger] final(self).entries()[k] == if old(
                    self,
                ).entries()[k].id == instance_id@ {
                    InstanceView { status, ..old(self).entries()[k] }
                } else {
                    old(self).entries()[k]
                },
    {
        match self.position(instance_id) {
            Some(k) => {
                proof {
                    lemma_ids_unique();
                }
                let mut instance = self.instances.remove(k);
                instance.set_status(status);
                let ghost before = self.instances@;
                self.instances.insert(k, instance);
                proof {
                    assert forall|j: int|
                        0 <= j < old(self).entries().len() implies #[trigger] self.entries()[j]
                        == if old(self).entries()[j].id == instance_id@ {
                        InstanceView { status, ..old(self).entries()[j] }
                    } else {
                        old(self).entries()[j]
                    } by {
                        if j != k {
                            assert(self.instances@[j] == old(self).instances@[j]);
                            assert(numbered_id((j + 1) as nat) != numbered_id((k + 1) as nat));
                        }
                    }
                }
                true
            },
            None => {
                assert(self.entries() =~= old(self).entries());
                false
            },
        }
    }

    /// The instances, ordered by id as strings compare.
    pub fn list(&self) -> (r: Vec<BattleInstance>)
        ensures
            sorted_by_id(r@.map_values(|i: BattleInstance| i.view())),
            r@.map_values(|i: BattleInstance| i.view()).to_multiset()
                == self.entries().to_multiset(),
    {
        let mut copies: Vec<BattleInstance> = Vec::new();
        let mut k: usize = 0;
        while k < self.instances.len()
            invariant
                k <= self.instances@.len(),
                copies@.map_values(|i: BattleInstance| i.view()) == self.entries().take(k as int),
            decreases self.instances@.len() - k,
        {
            let c = self.instances[k].copy();
            let ghost before = copies@;
            copies.push(c);
            assert(copies@.map_values(|i: BattleInstance| i.view()) =~= before.map_values(
                |i: BattleInstance| i.view(),
            ).push(c.view()));
            assert(self.entries().take(k + 1 as int) =~= self.entries().take(k as int).push(
                self.entries()[k as int],
            ));
            k = k + 1;
        }
        assert(self.entries().take(k as int) =~= self.entries());
        sort_instances(copies)
    }
}

/// Distinct positions hold distinct ids.
pub proof fn lemma_ids_unique()
    ensures
        forall|j: nat, k: nat|
            j != k ==> #[trigger] numbered_id(j) != #[trigger] numbered_id(k),
{
    assert forall|j: nat, k: nat| j != k implies #[trigger] numbered_id(j) != #[trigger] numbered_id(
        k,
    ) by {
        if numbered_id(j) == numbered_id(k) {
            reveal_strlit("battle-");
            assert(decimal(j) =~= numbered_id(j).skip(7));
            assert(decimal(k) =~= numbered_id(k).skip(7));
            lemma_decimal_injective(j, k);
        }
    }
}

/// No two instances of a registry share an id.
pub proof fn lemma_instance_ids_distinct(m: &InstanceManager)
    requires
        m.wf(),
    ensures
        forall|j: int, k: int|
            0 <= j < k < m.entries().len() ==> #[trigger] m.entries()[j].id != #[trigger] m.entries()[k].id,
{
    lemma_ids_unique();
    assert forall|j: int, k: int| 0 <= j < k < m.entries().len() implies #[trigger] m.entries()[j].id
        != #[trigger] m.entries()[k].id by {
        assert(m.entries()[j].id == numbered_id((j + 1) as nat));
        assert(m.entries()[k].id == numbered_id((k + 1) as nat));
    }
}

/// The instances ordered by id.
fn sort_instances(items: Vec<BattleInstance>) -> (r: Vec<BattleInstance>)
    ensures
        sorted_by_id(r@.map_values(|i: BattleInstance| i.view())),
        r@.map_values(|i: BattleInstance| i.view()).to_multiset() == items@.map_values(
            |i: BattleInstance| i.view(),
        ).to_multiset(),
{
    let ghost f = |i: BattleInstance| i.view();
    let ghost initial = items@.map_values(f).to_multiset();
    let mut input = items;
    let mut out: Vec<BattleInstance> = Vec::new();
    assert(out@.map_values(f) =~= Seq::<InstanceView>::empty());
    while input.len() > 0
        invariant
            f == (|i: BattleInstance| i.view()),
            sorted_by_id(out@.map_values(f)),
            input@.map_values(f).to_multiset().add(out@.map_values(f).to_multiset()) == initial,
        decreases input@.len(),
    {
        let ghost before_in = input@.map_values(f);
        let x = input.pop().unwrap();
        assert(before_in =~= input@.map_values(f).push(f(x)));
        let ghost xv = f(x);
        let ghost s = out@.map_values(f);
        let xid = chars_of(x.id.as_str());
        let mut p: usize = 0;
        while p < out.len() && !chars_less(xid.as_slice(), chars_of(out[p].id.as_str()).as_slice())
            invariant
                p <= out@.len(),
                s == out@.map_values(f),
                f == (|i: BattleInstance| i.view()),
                xv == f(x),
                xid@ == xv.id,
                forall|k: int| 0 <= k < p ==> !lex_lt(xv.id, #[trigger] s[k].id),
            decreases out@.len() - p,
        {
            p = p + 1;
        }
        proof {
            if p < s.len() {
                assert(lex_lt(xv.id, s[p as int].id));
                assert forall|k: int| p <= k < s.len() implies lex_lt(xv.id, #[trigger] s[k].id) by {
                    if k > p {
                        assert(!lex_lt(s[k].id, s[p as int].id));
                    }
                    lemma_lex_order(xv.id, s[p as int].id, s[k].id);
                    lemma_lex_order(s[k].id, s[p as int].id, xv.id);
                    lemma_lex_order(s[p as int].id, s[k].id, xv.id);
                }
            }
        }
        out.insert(p, x);
        let ghost t = out@.map_values(f);
        assert(t =~= s.insert(p as int, xv));
        proof {
            assert forall|i: int, j: int| 0 <= i < j < t.len() implies !lex_lt(
                #[trigger] t[j].id,
                #[trigger] t[i].id,
            ) by {
                if j < p {
                    assert(t[i] == s[i] && t[j] == s[j]);
                } else if j == p {
                    assert(t[i] == s[i]);
                } else if i == p {
                    assert(t[j] == s[j - 1]);
                    lemma_lex_order(xv.id, s[j - 1].id, xv.id);
                } else if i < p {
                    assert(t[i] == s[i] && t[j] == s[j - 1]);
                } else {
                    assert(t[i] == s[i - 1] && t[j] == s[j - 1]);
                }
            }
        }
    }
    assert(input@.map_values(f) =~= Seq::<InstanceView>::empty());
    assert(input@.map_values(f).to_multiset() =~= Multiset::<InstanceView>::empty());
    out
}

} // verus!

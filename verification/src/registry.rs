//! Which connected clients follow which battle instances.
//!
//! The registry keeps, for each client, the instances it subscribed to,
//! and, for each instance, the clients to send its updates to. The channel
//! used to reach a client is kept beside the registry by the server.
use vstd::prelude::*;

use crate::protocol::{copy_strings, strings_view};
use crate::text::with_number;

verus! {

/// Identifier of a connected client.
pub type ClientId = u64;

pub struct SubscriptionRegistry {
    clients: Vec<(u64, Vec<String>)>,
    subscriptions: Vec<(u64, String)>,
}

pub open spec fn routes_view(v: Seq<(u64, String)>) -> Seq<(u64, Seq<char>)> {
    v.map_values(|e: (u64, String)| (e.0, e.1@))
}

/// Whether route `p` leads client `c` to one of `names`.
pub open spec fn leads_to(c: u64, names: Seq<Seq<char>>, p: (u64, Seq<char>)) -> bool {
    p.0 == c && names.contains(p.1)
}

/// The entries of `v` other than `x`, in order.
pub open spec fn without_u64(v: Seq<u64>, x: u64) -> Seq<u64>
    decreases v.len(),
{
    if v.len() == 0 {
        Seq::empty()
    } else if v.last() == x {
        without_u64(v.drop_last(), x)
    } else {
        without_u64(v.drop_last(), x).push(v.last())
    }
}

impl SubscriptionRegistry {
    spec fn ids(&self) -> Seq<u64> {
        self.clients@.map_values(|e: (u64, Vec<String>)| e.0)
    }

    /// No client appears twice.
    pub closed spec fn wf(&self) -> bool {
        forall|a: int, b: int| 0 <= a < b < self.ids().len() ==> self.ids()[a] != self.ids()[b]
    }

    /// The connected clients.
    pub closed spec fn clients(&self) -> Set<u64> {
        self.ids().to_set()
    }

    /// The instances client `c` subscribed to; empty for an unknown client.
    pub closed spec fn subscriptions_of(&self, c: u64) -> Set<Seq<char>> {
        if exists|k: int| 0 <= k < self.ids().len() && self.ids()[k] == c {
            let k = choose|k: int| 0 <= k < self.ids().len() && self.ids()[k] == c;
            strings_view(self.clients@[k].1@).to_set()
        } else {
            Set::empty()
        }
    }

    /// The (client, instance) pairs along which instance updates are sent.
    pub closed spec fn routes(&self) -> Set<(u64, Seq<char>)> {
        routes_view(self.subscriptions@).to_set()
    }

    /// Every route belongs to a connected client that subscribed to the
    /// instance, and every subscription has its route.
    pub open spec fn consistent(&self) -> bool {
        forall|c: u64, i: Seq<char>| #[trigger]
            self.routes().contains((c, i)) <==> (self.clients().contains(c)
                && self.subscriptions_of(c).contains(i))
    }

    pub fn new() -> (r: Self)
        ensures
            r.wf(),
            r.consistent(),
            r.clients() == Set::<u64>::empty(),
            forall|c: u64| #[trigger] r.subscriptions_of(c) == Set::<Seq<char>>::empty(),
            r.routes() == Set::<(u64, Seq<char>)>::empty(),
    {
        let r = SubscriptionRegistry { clients: Vec::new(), subscriptions: Vec::new() };
        assert(r.ids() =~= Seq::<u64>::empty());
        assert(r.clients() =~= Set::<u64>::empty());
        assert(routes_view(r.subscriptions@) =~= Seq::<
            (u64, Seq<char>),
        >::empty());
        assert(r.routes() =~= Set::<(u64, Seq<char>)>::empty());
        r
    }

    proof fn lemma_unique_index(&self, c: u64, k: int)
        requires
            self.wf(),
            0 <= k < self.ids().len(),
            self.ids()[k] == c,
        ensures
            self.subscriptions_of(c) == strings_view(self.clients@[k].1@).to_set(),
            self.clients().contains(c),
    {
        let j = choose|j: int| 0 <= j < self.ids().len() && self.ids()[j] == c;
        assert(j == k);
        assert(self.ids().contains(c));
    }

    fn index_of(&self, c: u64) -> (r: Option<usize>)
        requires
            self.wf(),
        ensures
            match r {
                Some(k) => k < self.ids().len() && self.ids()[k as int] == c,
                None => !self.clients().contains(c),
            },
    {
        let mut k: usize = 0;
        while k < self.clients.len()
            invariant
                k <= self.clients@.len(),
                forall|j: int| 0 <= j < k ==> self.ids()[j] != c,
            decreases self.clients@.len() - k,
        {
            if self.clients[k].0 == c {
                return Some(k);
            }
            k = k + 1;
        }
        proof {
            if self.ids().contains(c) {
                let j = choose|j: int| 0 <= j < self.ids().len() && self.ids()[j] == c;
                assert(self.ids()[j] != c);
            }
        }
        None
    }

    /// Registers client `c` with no subscriptions (forgetting any it had).
    pub fn add_client(&mut self, c: ClientId)
        requires
            old(self).wf(),
        ensures
            final(self).wf(),
            final(self).clients() == old(self).clients().insert(c),
            final(self).subscriptions_of(c) == Set::<Seq<char>>::empty(),
            forall|d: u64| d != c ==> #[trigger] final(self).subscriptions_of(d) == old(
                self,
            ).subscriptions_of(d),
            final(self).routes() == old(self).routes(),
    {
        let ghost old_ids = self.ids();
        let ghost old_clients = self.clients@;
        match self.index_of(c) {
            Some(k) => {
                self.clients.set(k, (c, Vec::new()));
                assert(self.ids() =~= old_ids);
                proof {
                    self.lemma_unique_index(c, k as int);
                    assert(strings_view(self.clients@[k as int].1@) =~= Seq::<Seq<char>>::empty());
                    assert(strings_view(self.clients@[k as int].1@).to_set() =~= Set::<
                        Seq<char>,
                    >::empty());
                    assert(self.clients() =~= old(self).clients().insert(c));
                    assert forall|d: u64| d != c implies #[trigger] self.subscriptions_of(d) == old(
                        self,
                    ).subscriptions_of(d) by {
                        if old_ids.contains(d) {
                            let j = choose|j: int| 0 <= j < old_ids.len() && old_ids[j] == d;
                            old(self).lemma_unique_index(d, j);
                            self.lemma_unique_index(d, j);
                            assert(self.clients@[j] == old_clients[j]);
                        } else {
                            assert(!self.ids().contains(d));
                        }
                    }
                }
            },
            None => {
                self.clients.push((c, Vec::new()));
                assert(self.ids() =~= old_ids.push(c));
                proof {
                    let n = old_ids.len() as int;
                    assert forall|a: int, b: int|
                        0 <= a < b < self.ids().len() implies self.ids()[a] != self.ids()[b] by {
                        if b == n {
                            assert(old_ids.contains(old_ids[a]));
                        }
                    }
                    self.lemma_unique_index(c, n);
                    assert(strings_view(self.clients@[n].1@) =~= Seq::<Seq<char>>::empty());
                    assert(strings_view(self.clients@[n].1@).to_set() =~= Set::<
                        Seq<char>,
                    >::empty());
                    assert(self.clients() =~= old(self).clients().insert(c)) by {
                        assert forall|d: u64| self.clients().contains(d) <==> old(
                            self,
                        ).clients().insert(c).contains(d) by {
                            if self.ids().contains(d) {
                                let j = choose|j: int| 0 <= j < self.ids().len() && self.ids()[j] == d;
                                if j < n {
                                    assert(old_ids[j] == d);
                                }
                            }
                            if old_ids.contains(d) {
                                let j = choose|j: int| 0 <= j < old_ids.len() && old_ids[j] == d;
                                assert(self.ids()[j] == d);
                            }
                        }
                    }
                    assert forall|d: u64| d != c implies #[trigger] self.subscriptions_of(d) == old(
                        self,
                    ).subscriptions_of(d) by {
                        if old_ids.contains(d) {
                            let j = choose|j: int| 0 <= j < old_ids.len() && old_ids[j] == d;
                            old(self).lemma_unique_index(d, j);
                            self.lemma_unique_index(d, j);
                            assert(self.clients@[j] == old_clients[j]);
                        } else {
                            assert(!self.ids().contains(d)) by {
                                if self.ids().contains(d) {
                                    let j = choose|j: int|
                                        0 <= j < self.ids().len() && self.ids()[j] == d;
                                    if j < n {
                                        assert(old_ids[j] == d);
                                    }
                                }
                            }
                        }
                    }
                }
            },
        }
    }
}

fn contains_str(v: &Vec<String>, x: &String) -> (b: bool)
    ensures
        b == strings_view(v@).to_set().contains(x@),
{
    let mut k: usize = 0;
    while k < v.len()
        invariant
            k <= v@.len(),
            forall|j: int| 0 <= j < k ==> strings_view(v@)[j] != x@,
        decreases v@.len() - k,
    {
        if v[k] == *x {
            assert(strings_view(v@)[k as int] == x@);
            assert(strings_view(v@).contains(x@));
            return true;
        }
        k = k + 1;
    }
    proof {
        if strings_view(v@).contains(x@) {
            let j = choose|j: int| 0 <= j < strings_view(v@).len() && strings_view(v@)[j] == x@;
        }
    }
    false
}

fn without_str(v: &Vec<String>, x: &String) -> (r: Vec<String>)
    ensures
        strings_view(r@).to_set() == strings_view(v@).to_set().remove(x@),
{
    let ghost sv = strings_view(v@);
    let mut r: Vec<String> = Vec::new();
    let mut k: usize = 0;
    while k < v.len()
        invariant
            k <= v@.len(),
            sv == strings_view(v@),
            forall|y: Seq<char>| #[trigger]
                strings_view(r@).contains(y) <==> (sv.take(k as int).contains(y) && y != x@),
        decreases v@.len() - k,
    {
        let ghost before = r@;
        if !(v[k] == *x) {
            let s = v[k].clone();
            r.push(s);
            assert(strings_view(r@) =~= strings_view(before).push(sv[k as int]));
        }
        proof {
            assert forall|y: Seq<char>| #[trigger]
                strings_view(r@).contains(y) <==> (sv.take(k + 1 as int).contains(y) && y != x@) by {
                assert(sv.take(k + 1 as int) =~= sv.take(k as int).push(sv[k as int]));
                if y == sv[k as int] && y != x@ {
                    assert(strings_view(r@)[strings_view(r@).len() - 1] == y);
                }
                assert(sv.take(k + 1 as int)[k as int] == sv[k as int]);
                if strings_view(r@).contains(y) && !strings_view(before).contains(y) {
                    let j = choose|j: int| 0 <= j < strings_view(r@).len() && strings_view(r@)[j] == y;
                    assert(j == before.len());
                }
                if strings_view(before).contains(y) {
                    let j = choose|j: int| 0 <= j < strings_view(before).len() && strings_view(before)[j] == y;
                    assert(strings_view(r@)[j] == y);
                }
                let t1 = sv.take(k + 1 as int);
                let t0 = sv.take(k as int);
                if t1.contains(y) {
                    let j = choose|j: int| 0 <= j < t1.len() && t1[j] == y;
                    if j < k {
                        assert(t0[j] == y);
                    }
                }
                if t0.contains(y) {
                    let j = choose|j: int| 0 <= j < t0.len() && t0[j] == y;
                    assert(t1[j] == y);
                }
            }
        }
        k = k + 1;
    }
    assert(sv.take(v@.len() as int) =~= sv);
    assert(strings_view(r@).to_set() =~= sv.to_set().remove(x@));
    r
}

fn with_str(v: &Vec<String>, x: String) -> (r: Vec<String>)
    ensures
        strings_view(r@).to_set() == strings_view(v@).to_set().insert(x@),
{
    let mut r = copy_strings(v);
    if !contains_str(&r, &x) {
        let ghost before = strings_view(r@);
        r.push(x);
        assert(strings_view(r@) =~= before.push(x@));
        assert(strings_view(r@).to_set() =~= before.to_set().insert(x@)) by {
            assert forall|y: Seq<char>| strings_view(r@).to_set().contains(y) <==> before.to_set().insert(
                x@,
            ).contains(y) by {
                if strings_view(r@).contains(y) {
                    let j = choose|j: int| 0 <= j < strings_view(r@).len() && strings_view(r@)[j] == y;
                    if j < before.len() {
                        assert(before[j] == y);
                    }
                }
                if before.contains(y) {
                    let j = choose|j: int| 0 <= j < before.len() && before[j] == y;
                    assert(strings_view(r@)[j] == y);
                }
                if y == x@ {
                    assert(strings_view(r@)[before.len() as int] == y);
                }
            }
        }
    } else {
        assert(strings_view(r@).to_set() =~= strings_view(v@).to_set().insert(x@));
    }
    r
}

impl SubscriptionRegistry {
    spec fn route_seq(&self) -> Seq<(u64, Seq<char>)> {
        routes_view(self.subscriptions@)
    }

    fn has_route(&self, c: u64, i: &String) -> (b: bool)
        ensures
            b == self.routes().contains((c, i@)),
    {
        let ghost rs = self.route_seq();
        let mut k: usize = 0;
        while k < self.subscriptions.len()
            invariant
                k <= self.subscriptions@.len(),
                rs == self.route_seq(),
                forall|j: int| 0 <= j < k ==> rs[j] != (c, i@),
            decreases self.subscriptions@.len() - k,
        {
            if self.subscriptions[k].0 == c && self.subscriptions[k].1 == *i {
                assert(rs[k as int] == (c, i@));
                assert(rs.contains((c, i@)));
                return true;
            }
            k = k + 1;
        }
        proof {
            if rs.contains((c, i@)) {
                let j = choose|j: int| 0 <= j < rs.len() && rs[j] == (c, i@);
            }
        }
        false
    }

    fn add_route(&mut self, c: u64, i: String)
        ensures
            final(self).routes() == old(self).routes().insert((c, i@)),
            final(self).clients == old(self).clients,
    {
        if !self.has_route(c, &i) {
            let ghost before = self.route_seq();
            let ghost iv = i@;
            self.subscriptions.push((c, i));
            assert(self.route_seq() =~= before.push((c, iv)));
            assert(self.routes() =~= before.to_set().insert((c, iv))) by {
                assert forall|p: (u64, Seq<char>)| self.route_seq().contains(p) <==> before.to_set().insert(
                    (c, iv),
                ).contains(p) by {
                    if self.route_seq().contains(p) {
                        let j = choose|j: int| 0 <= j < self.route_seq().len() && self.route_seq()[j] == p;
                        if j < before.len() {
                            assert(before[j] == p);
                        }
                    }
                    if before.contains(p) {
                        let j = choose|j: int| 0 <= j < before.len() && before[j] == p;
                        assert(self.route_seq()[j] == p);
                    }
                    if p == (c, iv) {
                        assert(self.route_seq()[before.len() as int] == p);
                    }
                }
            }
        } else {
            assert(self.routes() =~= old(self).routes().insert((c, i@)));
        }
    }

    /// Keeps the routes `keep` accepts.
    fn retain_routes(&mut self, c: u64, instances: &Vec<String>)
        ensures
            forall|p: (u64, Seq<char>)| #[trigger]
                final(self).routes().contains(p) <==> (old(self).routes().contains(p) && !leads_to(
                    c,
                    strings_view(instances@),
                    p,
                )),
            final(self).clients == old(self).clients,
    {
        let ghost rs = self.route_seq();
        let ghost names = strings_view(instances@);
        let mut kept: Vec<(u64, String)> = Vec::new();
        let mut k: usize = 0;
        while k < self.subscriptions.len()
            invariant
                k <= self.subscriptions@.len(),
                rs == self.route_seq(),
                self.clients == old(self).clients,
                rs == old(self).route_seq(),
                names == strings_view(instances@),
                forall|p: (u64, Seq<char>)| #[trigger]
                    routes_view(kept@).contains(p) <==> (rs.take(k as int).contains(p) && !leads_to(
                        c,
                        names,
                        p,
                    )),
            decreases self.subscriptions@.len() - k,
        {
            let ghost before = routes_view(kept@);
            let ghost p_k = rs[k as int];
            let entry_c = self.subscriptions[k].0;
            let dropped = entry_c == c && contains_str(instances, &self.subscriptions[k].1);
            proof {
                assert(strings_view(instances@).to_set().contains(p_k.1) == strings_view(
                    instances@,
                ).contains(p_k.1));
            }
            if !dropped {
                let name = self.subscriptions[k].1.clone();
                kept.push((entry_c, name));
                assert(routes_view(kept@) =~= before.push(p_k));
            }
            proof {
                let now = routes_view(kept@);
                assert forall|p: (u64, Seq<char>)| #[trigger]
                    now.contains(p) <==> (rs.take(k + 1 as int).contains(p) && !leads_to(
                        c,
                        names,
                        p,
                    )) by {
                    assert(rs.take(k + 1 as int) =~= rs.take(k as int).push(p_k));
                    if p == p_k && !leads_to(c, names, p) {
                        assert(now[now.len() - 1] == p);
                    }
                    assert(rs.take(k + 1 as int)[k as int] == p_k);
                    if now.contains(p) && !before.contains(p) {
                        let j = choose|j: int| 0 <= j < now.len() && now[j] == p;
                        assert(j == before.len());
                    }
                    if before.contains(p) {
                        let j = choose|j: int| 0 <= j < before.len() && before[j] == p;
                        assert(now[j] == p);
                    }
                    let t1 = rs.take(k + 1 as int);
                    let t0 = rs.take(k as int);
                    if t1.contains(p) {
                        let j = choose|j: int| 0 <= j < t1.len() && t1[j] == p;
                        if j < k {
                            assert(t0[j] == p);
                        }
                    }
                    if t0.contains(p) {
                        let j = choose|j: int| 0 <= j < t0.len() && t0[j] == p;
                        assert(t1[j] == p);
                    }
                }
            }
            k = k + 1;
        }
        assert(rs.take(rs.len() as int) =~= rs);
        self.subscriptions = kept;
    }

    /// Subscribes client `c` to `instance_id`; an unknown client is refused.
    pub fn subscribe_client(&mut self, c: ClientId, instance_id: String) -> (r: Result<(), String>)
        requires
            old(self).wf(),
        ensures
            final(self).wf(),
            r is Err <==> !old(self).clients().contains(c),
            r matches Err(m) ==> m@ == "unknown client: "@ + crate::text::decimal(c as nat)
                && *final(self) == *old(self),
            r is Ok ==> final(self).clients() == old(self).clients() && final(self).subscriptions_of(
                c,
            ) == old(self).subscriptions_of(c).insert(instance_id@) && (forall|d: u64|
                d != c ==> #[trigger] final(self).subscriptions_of(d) == old(
                    self,
                ).subscriptions_of(d)) && final(self).routes() == old(self).routes().insert(
                (c, instance_id@),
            ),
    {
        let k = match self.index_of(c) {
            Some(k) => k,
            None => {
                return Err(with_number("unknown client: ", c));
            },
        };
        let ghost old_ids = self.ids();
        let ghost old_clients = self.clients@;
        let ghost iv = instance_id@;
        proof {
            self.lemma_unique_index(c, k as int);
        }
        let list = with_str(&self.clients[k].1, instance_id.clone());
        self.clients.set(k, (c, list));
        assert(self.ids() =~= old_ids);
        proof {
            self.lemma_unique_index(c, k as int);
            assert(self.clients() =~= old(self).clients());
            assert forall|d: u64| d != c implies #[trigger] self.subscriptions_of(d) == old(
                self,
            ).subscriptions_of(d) by {
                if old_ids.contains(d) {
                    let j = choose|j: int| 0 <= j < old_ids.len() && old_ids[j] == d;
                    old(self).lemma_unique_index(d, j);
                    self.lemma_unique_index(d, j);
                    assert(self.clients@[j] == old_clients[j]);
                }
            }
        }
        self.add_route(c, instance_id);
        assert(self.ids() =~= old_ids);
        Ok(())
    }
}

impl SubscriptionRegistry {
    /// Unsubscribes client `c` from `instance_id`.
    pub fn unsubscribe_client(&mut self, c: ClientId, instance_id: &str)
        requires
            old(self).wf(),
        ensures
            final(self).wf(),
            final(self).clients() == old(self).clients(),
            final(self).subscriptions_of(c) == old(self).subscriptions_of(c).remove(instance_id@),
            forall|d: u64| d != c ==> #[trigger] final(self).subscriptions_of(d) == old(
                self,
            ).subscriptions_of(d),
            final(self).routes() == old(self).routes().remove((c, instance_id@)),
    {
        let name = instance_id.to_owned();
        let ghost old_ids = self.ids();
        let ghost old_clients = self.clients@;
        match self.index_of(c) {
            Some(k) => {
                proof {
                    self.lemma_unique_index(c, k as int);
                }
                let list = without_str(&self.clients[k].1, &name);
                self.clients.set(k, (c, list));
                assert(self.ids() =~= old_ids);
                proof {
                    self.lemma_unique_index(c, k as int);
                    assert(self.clients() =~= old(self).clients());
                    assert forall|d: u64| d != c implies #[trigger] self.subscriptions_of(d) == old(
                        self,
                    ).subscriptions_of(d) by {
                        if old_ids.contains(d) {
                            let j = choose|j: int| 0 <= j < old_ids.len() && old_ids[j] == d;
                            old(self).lemma_unique_index(d, j);
                            self.lemma_unique_index(d, j);
                            assert(self.clients@[j] == old_clients[j]);
                        }
                    }
                }
            },
            None => {
                assert(!old_ids.contains(c)) by {
                    if old_ids.contains(c) {
                        assert(old(self).clients().contains(c));
                    }
                }
                assert(old(self).subscriptions_of(c) =~= Set::<Seq<char>>::empty());
                assert(old(self).subscriptions_of(c).remove(instance_id@) =~= Set::<
                    Seq<char>,
                >::empty());
            },
        }
        let ghost mid = *self;
        let mut one: Vec<String> = Vec::new();
        one.push(name);
        proof {
            assert(strings_view(one@) =~= seq![instance_id@]);
            assert forall|n: Seq<char>| seq![instance_id@].contains(n) <==> n == instance_id@ by {
                if n == instance_id@ {
                    assert(seq![instance_id@][0] == n);
                }
            }
        }
        self.retain_routes(c, &one);
        assert(self.routes() =~= old(self).routes().remove((c, instance_id@)));
    }

    /// Forgets client `c` and the routes of its subscriptions.
    pub fn remove_client(&mut self, c: ClientId)
        requires
            old(self).wf(),
        ensures
            final(self).wf(),
            final(self).clients() == old(self).clients().remove(c),
            final(self).subscriptions_of(c) == Set::<Seq<char>>::empty(),
            forall|d: u64| d != c ==> #[trigger] final(self).subscriptions_of(d) == old(
                self,
            ).subscriptions_of(d),
            forall|p: (u64, Seq<char>)| #[trigger]
                final(self).routes().contains(p) <==> (old(self).routes().contains(p) && !(p.0
                    == c && old(self).subscriptions_of(c).contains(p.1))),
    {
        let ghost old_ids = self.ids();
        let ghost old_clients = self.clients@;
        match self.index_of(c) {
            Some(k) => {
                proof {
                    self.lemma_unique_index(c, k as int);
                }
                let subs = copy_strings(&self.clients[k].1);
                self.retain_routes(c, &subs);
                proof {
                    assert forall|n: Seq<char>|
                        strings_view(subs@).contains(n) <==> old(self).subscriptions_of(
                            c,
                        ).contains(n) by {
                    }
                }
                let ghost after_routes = *self;
                self.clients.remove(k);
                assert(self.routes() == after_routes.routes());
                assert forall|p: (u64, Seq<char>)| #[trigger]
                    self.routes().contains(p) <==> (old(self).routes().contains(p) && !(p.0 == c
                        && old(self).subscriptions_of(c).contains(p.1))) by {
                    assert(after_routes.routes().contains(p) <==> (old(self).routes().contains(p)
                        && !leads_to(c, strings_view(subs@), p)));
                }
                assert(self.ids() =~= old_ids.remove(k as int));
                proof {
                    assert forall|a: int, b: int|
                        0 <= a < b < self.ids().len() implies self.ids()[a] != self.ids()[b] by {
                        let a0 = if a < k { a } else { a + 1 };
                        let b0 = if b < k { b } else { b + 1 };
                        assert(self.ids()[a] == old_ids[a0]);
                        assert(self.ids()[b] == old_ids[b0]);
                    }
                    assert(self.clients() =~= old(self).clients().remove(c)) by {
                        assert forall|d: u64| self.clients().contains(d) <==> old(
                            self,
                        ).clients().remove(c).contains(d) by {
                            if self.ids().contains(d) {
                                let j = choose|j: int| 0 <= j < self.ids().len() && self.ids()[j] == d;
                                let j0 = if j < k { j } else { j + 1 };
                                assert(old_ids[j0] == d);
                                assert(j0 != k);
                            }
                            if old_ids.contains(d) && d != c {
                                let j = choose|j: int| 0 <= j < old_ids.len() && old_ids[j] == d;
                                assert(j != k);
                                let j1 = if j < k { j } else { j - 1 };
                                assert(self.ids()[j1] == d);
                            }
                        }
                    }
                    assert(!self.ids().contains(c)) by {
                        if self.ids().contains(c) {
                            let j = choose|j: int| 0 <= j < self.ids().len() && self.ids()[j] == c;
                            let j0 = if j < k { j } else { j + 1 };
                            assert(old_ids[j0] == c);
                        }
                    }
                    assert forall|d: u64| d != c implies #[trigger] self.subscriptions_of(d) == old(
                        self,
                    ).subscriptions_of(d) by {
                        if old_ids.contains(d) {
                            let j = choose|j: int| 0 <= j < old_ids.len() && old_ids[j] == d;
                            assert(j != k);
                            let j1 = if j < k { j } else { j - 1 };
                            old(self).lemma_unique_index(d, j);
                            assert(self.ids()[j1] == d);
                            self.lemma_unique_index(d, j1);
                            assert(self.clients@[j1] == old_clients[j]);
                        } else {
                            assert(!self.ids().contains(d)) by {
                                if self.ids().contains(d) {
                                    let j = choose|j: int|
                                        0 <= j < self.ids().len() && self.ids()[j] == d;
                                    let j0 = if j < k { j } else { j + 1 };
                                    assert(old_ids[j0] == d);
                                }
                            }
                        }
                    }
                }
            },
            None => {
                assert(old(self).clients().remove(c) =~= old(self).clients());
                assert(old(self).subscriptions_of(c) =~= Set::<Seq<char>>::empty());
            },
        }
    }

    /// The connected clients following `instance_id`, each once.
    pub fn subscribers_for(&self, instance_id: &str) -> (r: Vec<ClientId>)
        requires
            self.wf(),
        ensures
            r@.no_duplicates(),
            forall|c: u64| #[trigger]
                r@.contains(c) <==> (self.routes().contains((c, instance_id@))
                    && self.clients().contains(c)),
    {
        let name = instance_id.to_owned();
        let ghost rs = self.route_seq();
        let mut out: Vec<u64> = Vec::new();
        let mut k: usize = 0;
        while k < self.subscriptions.len()
            invariant
                k <= self.subscriptions@.len(),
                rs == self.route_seq(),
                name@ == instance_id@,
                self.wf(),
                out@.no_duplicates(),
                forall|c: u64| #[trigger]
                    out@.contains(c) <==> (rs.take(k as int).contains((c, instance_id@))
                        && self.clients().contains(c)),
            decreases self.subscriptions@.len() - k,
        {
            let ghost before = out@;
            let c = self.subscriptions[k].0;
            let matches_name = self.subscriptions[k].1 == name;
            let known = self.index_of(c).is_some();
            let mut seen = false;
            let mut m: usize = 0;
            while m < out.len()
                invariant
                    m <= out@.len(),
                    out@ == before,
                    seen == (exists|j: int| 0 <= j < m && out@[j] == c),
                decreases out@.len() - m,
            {
                if out[m] == c {
                    seen = true;
                }
                m = m + 1;
            }
            if matches_name && known && !seen {
                out.push(c);
                proof {
                    assert forall|a: int, b: int|
                        0 <= a < b < out@.len() implies out@[a] != out@[b] by {
                        if b == before.len() {
                            assert(before[a] != c);
                        }
                    }
                }
            }
            proof {
                assert(rs[k as int] == (c, self.subscriptions@[k as int].1@));
                if known {
                    let j = choose|j: int| 0 <= j < self.ids().len() && self.ids()[j] == c;
                }
                assert forall|d: u64| #[trigger]
                    out@.contains(d) <==> (rs.take(k + 1 as int).contains((d, instance_id@))
                        && self.clients().contains(d)) by {
                    let t1 = rs.take(k + 1 as int);
                    let t0 = rs.take(k as int);
                    assert(t1 =~= t0.push(rs[k as int]));
                    assert(t1[k as int] == rs[k as int]);
                    if t1.contains((d, instance_id@)) {
                        let j = choose|j: int| 0 <= j < t1.len() && t1[j] == (d, instance_id@);
                        if j < k {
                            assert(t0[j] == (d, instance_id@));
                        }
                    }
                    if t0.contains((d, instance_id@)) {
                        let j = choose|j: int| 0 <= j < t0.len() && t0[j] == (d, instance_id@);
                        assert(t1[j] == (d, instance_id@));
                    }
                    if out@.contains(d) && !before.contains(d) {
                        let j = choose|j: int| 0 <= j < out@.len() && out@[j] == d;
                        assert(j == before.len());
                    }
                    if before.contains(d) {
                        let j = choose|j: int| 0 <= j < before.len() && before[j] == d;
                        assert(out@[j] == d);
                    }
                    if d == c && matches_name && known && !seen {
                        assert(out@[out@.len() - 1] == d);
                    }
                    if d == c && seen {
                        let j = choose|j: int| 0 <= j < before.len() && before[j] == c;
                        assert(before.contains(c));
                    }
                }
            }
            k = k + 1;
        }
        assert(rs.take(rs.len() as int) =~= rs);
        out
    }
}

// ---------------------------------------------------------------------------
// Laws
// ---------------------------------------------------------------------------

/// Registering a new client keeps the registry consistent.
pub proof fn lemma_add_client_consistent(before: SubscriptionRegistry, after: SubscriptionRegistry, c: u64)
    requires
        before.consistent(),
        !before.clients().contains(c),
        after.clients() == before.clients().insert(c),
        after.subscriptions_of(c) == Set::<Seq<char>>::empty(),
        forall|d: u64| d != c ==> #[trigger] after.subscriptions_of(d) == before.subscriptions_of(d),
        after.routes() == before.routes(),
    ensures
        after.consistent(),
{
    assert forall|d: u64, i: Seq<char>| #[trigger]
        after.routes().contains((d, i)) <==> (after.clients().contains(d)
            && after.subscriptions_of(d).contains(i)) by {
        if d != c {
            assert(before.routes().contains((d, i)) <==> (before.clients().contains(d)
                && before.subscriptions_of(d).contains(i)));
        } else {
            assert(before.routes().contains((d, i)) <==> (before.clients().contains(d)
                && before.subscriptions_of(d).contains(i)));
        }
    }
}

/// Subscribing keeps the registry consistent, and the client then follows
/// the instance.
pub proof fn lemma_subscribe_consistent(
    before: SubscriptionRegistry,
    after: SubscriptionRegistry,
    c: u64,
    i: Seq<char>,
)
    requires
        before.consistent(),
        before.clients().contains(c),
        after.clients() == before.clients(),
        after.subscriptions_of(c) == before.subscriptions_of(c).insert(i),
        forall|d: u64| d != c ==> #[trigger] after.subscriptions_of(d) == before.subscriptions_of(d),
        after.routes() == before.routes().insert((c, i)),
    ensures
        after.consistent(),
        after.routes().contains((c, i)),
{
    assert forall|d: u64, j: Seq<char>| #[trigger]
        after.routes().contains((d, j)) <==> (after.clients().contains(d)
            && after.subscriptions_of(d).contains(j)) by {
        assert(before.routes().contains((d, j)) <==> (before.clients().contains(d)
            && before.subscriptions_of(d).contains(j)));
    }
}

/// Unsubscribing keeps the registry consistent, and the instance's updates
/// no longer reach the client.
pub proof fn lemma_unsubscribe_consistent(
    before: SubscriptionRegistry,
    after: SubscriptionRegistry,
    c: u64,
    i: Seq<char>,
)
    requires
        before.consistent(),
        after.clients() == before.clients(),
        after.subscriptions_of(c) == before.subscriptions_of(c).remove(i),
        forall|d: u64| d != c ==> #[trigger] after.subscriptions_of(d) == before.subscriptions_of(d),
        after.routes() == before.routes().remove((c, i)),
    ensures
        after.consistent(),
        !after.routes().contains((c, i)),
{
    assert forall|d: u64, j: Seq<char>| #[trigger]
        after.routes().contains((d, j)) <==> (after.clients().contains(d)
            && after.subscriptions_of(d).contains(j)) by {
        assert(before.routes().contains((d, j)) <==> (before.clients().contains(d)
            && before.subscriptions_of(d).contains(j)));
    }
}

/// Removing a client keeps the registry consistent, and no update reaches
/// it any more.
pub proof fn lemma_remove_client_consistent(
    before: SubscriptionRegistry,
    after: SubscriptionRegistry,
    c: u64,
)
    requires
        before.consistent(),
        after.clients() == before.clients().remove(c),
        after.subscriptions_of(c) == Set::<Seq<char>>::empty(),
        forall|d: u64| d != c ==> #[trigger] after.subscriptions_of(d) == before.subscriptions_of(d),
        forall|p: (u64, Seq<char>)| #[trigger]
            after.routes().contains(p) <==> (before.routes().contains(p) && !(p.0 == c
                && before.subscriptions_of(c).contains(p.1))),
    ensures
        after.consistent(),
        forall|i: Seq<char>| !after.routes().contains((c, i)),
{
    assert forall|d: u64, j: Seq<char>| #[trigger]
        after.routes().contains((d, j)) <==> (after.clients().contains(d)
            && after.subscriptions_of(d).contains(j)) by {
        assert(before.routes().contains((d, j)) <==> (before.clients().contains(d)
            && before.subscriptions_of(d).contains(j)));
    }
    assert forall|i: Seq<char>| !after.routes().contains((c, i)) by {
        assert(before.routes().contains((c, i)) <==> (before.clients().contains(c)
            && before.subscriptions_of(c).contains(i)));
    }
}

impl Default for SubscriptionRegistry {
    fn default() -> (r: Self)
        ensures
            r.wf(),
            r.consistent(),
            r.clients() == Set::<u64>::empty(),
            r.routes() == Set::<(u64, Seq<char>)>::empty(),
    {
        Self::new()
    }
}

} // verus!

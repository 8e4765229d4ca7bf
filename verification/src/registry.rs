//! The tenant registry: the single source of truth for who is connected.
//!
//! One [`Org`] exists per tenant while anyone is attached to it.  An org
//! with no subscribers and no producer has no reason to exist: the registry
//! invariant [`Registry::wf`] rules such entries out, and whichever detach
//! operation observes that state removes the entry.  The surrounding
//! application serializes access behind one structural lock, so the
//! operations here are plain sequential mutations.

use vstd::prelude::*;

use tokio::sync::mpsc::UnboundedSender;

use crate::wire::Frame;

verus! {

/// One viewer connection attached to a tenant: its process-unique id and
/// the send endpoint of its outbound frame queue.
pub struct Subscriber {
    pub client_id: usize,
    pub outbound: UnboundedSender<Frame>,
}

/// One tenant's connection state.
pub struct Org {
    pub id: String,
    pub subscribers: Vec<Subscriber>,
    pub producer_connected: bool,
}

impl Org {
    /// Nobody is attached: the org must not stay in the registry.
    pub open spec fn idle(self) -> bool {
        self.subscribers@.len() == 0 && !self.producer_connected
    }

    /// Subscriber ids are distinct and below the registry's id counter.
    pub open spec fn wf(self, next_client_id: usize) -> bool {
        &&& forall|i: int|
            0 <= i < self.subscribers@.len() ==> (#[trigger] self.subscribers@[i]).client_id
                < next_client_id
        &&& forall|i: int, j: int|
            0 <= i < j < self.subscribers@.len() ==> (#[trigger] self.subscribers@[i]).client_id
                != (#[trigger] self.subscribers@[j]).client_id
    }

    pub fn new(subscribers: Vec<Subscriber>, producer_connected: bool, id: String) -> (org: Org)
        ensures
            org.subscribers == subscribers,
            org.producer_connected == producer_connected,
            org.id == id,
    {
        Org { subscribers, producer_connected, id }
    }
}

/// Index of the org that carries the given tenant id, or -1 when none does.
pub open spec fn find_org(s: Seq<Org>, id: Seq<char>) -> int
    decreases s.len(),
{
    if s.len() == 0 {
        -1
    } else if s[0].id@ == id {
        0
    } else {
        let rest = find_org(s.drop_first(), id);
        if rest == -1 {
            -1
        } else {
            rest + 1
        }
    }
}

/// `find_org` finds the first index that carries the id, and -1 exactly
/// when no index does.
pub proof fn lemma_find_org(s: Seq<Org>, id: Seq<char>)
    ensures
        -1 <= find_org(s, id) < s.len(),
        find_org(s, id) == -1 <==> (forall|j: int| 0 <= j < s.len() ==> (#[trigger] s[j]).id@ != id),
        find_org(s, id) >= 0 ==> s[find_org(s, id)].id@ == id && (forall|j: int|
            0 <= j < find_org(s, id) ==> (#[trigger] s[j]).id@ != id),
    decreases s.len(),
{
    if s.len() == 0 {
    } else if s[0].id@ == id {
    } else {
        lemma_find_org(s.drop_first(), id);
        assert(forall|j: int| 1 <= j < s.len() ==> #[trigger] s[j] == s.drop_first()[j - 1]);
    }
}

/// The process-wide table of tenants, with the counter that issues
/// process-unique subscriber ids.
pub struct Registry {
    pub orgs: Vec<Org>,
    pub next_client_id: usize,
}

impl Registry {
    /// Tenant ids are distinct, every org is well formed, and no org is
    /// idle: an org exists exactly while someone is attached to it.
    pub open spec fn wf(self) -> bool {
        &&& forall|i: int, j: int|
            0 <= i < j < self.orgs@.len() ==> (#[trigger] self.orgs@[i]).id@
                != (#[trigger] self.orgs@[j]).id@
        &&& forall|i: int|
            0 <= i < self.orgs@.len() ==> (#[trigger] self.orgs@[i]).wf(self.next_client_id)
        &&& forall|i: int| 0 <= i < self.orgs@.len() ==> !(#[trigger] self.orgs@[i]).idle()
    }

    /// True when the tenant has an entry.
    pub open spec fn has_tenant(self, id: Seq<char>) -> bool {
        find_org(self.orgs@, id) >= 0
    }

    /// The tenant's org, when it has an entry.
    pub open spec fn org_of(self, id: Seq<char>) -> Org
        recommends
            self.has_tenant(id),
    {
        self.orgs@[find_org(self.orgs@, id)]
    }

    pub fn new() -> (reg: Registry)
        ensures
            reg.wf(),
            reg.orgs@.len() == 0,
            reg.next_client_id == 0,
    {
        Registry { orgs: Vec::new(), next_client_id: 0 }
    }

    /// Looks the tenant up; a miss means "no such tenant", never an error.
    pub fn get(&self, tenant: &String) -> (r: Option<usize>)
        ensures
            match r {
                Some(i) => 0 <= i < self.orgs@.len() && i == find_org(self.orgs@, tenant@),
                None => !self.has_tenant(tenant@),
            },
    {
        let mut i: usize = 0;
        while i < self.orgs.len()
            invariant
                i <= self.orgs@.len(),
                forall|j: int| 0 <= j < i ==> (#[trigger] self.orgs@[j]).id@ != tenant@,
            decreases self.orgs@.len() - i,
        {
            if self.orgs[i].id == *tenant {
                proof {
                    lemma_find_org(self.orgs@, tenant@);
                }
                return Some(i);
            }
            i += 1;
        }
        proof {
            lemma_find_org(self.orgs@, tenant@);
        }
        None
    }

    /// Attaches a new viewer connection to the tenant, creating the org on
    /// first touch, and issues the connection's fresh process-unique id.
    pub fn attach_subscriber(&mut self, tenant: &String, outbound: UnboundedSender<Frame>) -> (
        client_id: usize)
        requires
            old(self).wf(),
            old(self).next_client_id < usize::MAX,
        ensures
            final(self).wf(),
            client_id == old(self).next_client_id,
            final(self).next_client_id == old(self).next_client_id + 1,
            final(self).has_tenant(tenant@),
            old(self).has_tenant(tenant@) ==> {
                let i = find_org(old(self).orgs@, tenant@);
                &&& final(self).orgs@.len() == old(self).orgs@.len()
                &&& find_org(final(self).orgs@, tenant@) == i
                &&& forall|j: int|
                    0 <= j < old(self).orgs@.len() && j != i ==> final(self).orgs@[j] == old(
                        self,
                    ).orgs@[j]
                &&& final(self).orgs@[i].id == old(self).orgs@[i].id
                &&& final(self).orgs@[i].producer_connected == old(
                    self,
                ).orgs@[i].producer_connected
                &&& final(self).orgs@[i].subscribers@ == old(self).orgs@[i].subscribers@.push(
                    Subscriber { client_id: old(self).next_client_id, outbound },
                )
            },
            !old(self).has_tenant(tenant@) ==> {
                &&& final(self).orgs@.len() == old(self).orgs@.len() + 1
                &&& forall|j: int|
                    0 <= j < old(self).orgs@.len() ==> final(self).orgs@[j] == old(self).orgs@[j]
                &&& final(self).orgs@.last().id@ == tenant@
                &&& final(self).orgs@.last().producer_connected == false
                &&& final(self).orgs@.last().subscribers@ == seq![
                    Subscriber { client_id: old(self).next_client_id, outbound },
                ]
            },
    {
        proof {
            lemma_find_org(self.orgs@, tenant@);
        }
        let fresh_id = self.next_client_id;
        self.next_client_id = fresh_id + 1;
        let sub = Subscriber { client_id: fresh_id, outbound };
        match self.get(tenant) {
            Some(i) => {
                let org = &mut self.orgs[i];
                org.subscribers.push(sub);
                proof {
                    lemma_find_org(self.orgs@, tenant@);
                    assert(find_org(self.orgs@, tenant@) == i as int) by {
                        assert(forall|j: int|
                            0 <= j < i ==> (#[trigger] self.orgs@[j]).id@ != tenant@);
                        assert(self.orgs@[i as int].id@ == tenant@);
                    }
                }
                fresh_id
            },
            None => {
                let org = Org {
                    id: tenant.clone(),
                    subscribers: Vec::new(),
                    producer_connected: false,
                };
                let mut org = org;
                org.subscribers.push(sub);
                self.orgs.push(org);
                proof {
                    lemma_find_org(self.orgs@, tenant@);
                    assert(self.orgs@.last().subscribers@ =~= seq![
                        Subscriber { client_id: fresh_id, outbound },
                    ]);
                    assert(forall|j: int|
                        0 <= j < old(self).orgs@.len() ==> #[trigger] self.orgs@[j] == old(
                            self,
                        ).orgs@[j]);
                }
                fresh_id
            },
        }
    }

    /// Detaches one viewer connection from the tenant and reports how many
    /// subscribers remain.  The detach that leaves the org with no
    /// subscribers and no producer removes the tenant from the registry;
    /// a lookup miss means "no such tenant" and changes nothing.  Detaching
    /// an id that is not attached changes nothing but is not an error.
    pub fn detach_subscriber(&mut self, tenant: &String, client_id: usize) -> (remaining: Option<
        usize,
    >)
        requires
            old(self).wf(),
        ensures
            final(self).wf(),
            final(self).next_client_id == old(self).next_client_id,
            match remaining {
                None => !old(self).has_tenant(tenant@) && *final(self) == *old(self),
                Some(count) => old(self).has_tenant(tenant@) && {
                    let i = find_org(old(self).orgs@, tenant@);
                    let kept = without_client(old(self).orgs@[i].subscribers@, client_id);
                    &&& count == kept.len()
                    &&& if kept.len() == 0 && !old(self).orgs@[i].producer_connected {
                        final(self).orgs@ == old(self).orgs@.remove(i) && !final(self).has_tenant(
                            tenant@,
                        )
                    } else {
                        &&& final(self).orgs@.len() == old(self).orgs@.len()
                        &&& find_org(final(self).orgs@, tenant@) == i
                        &&& forall|j: int|
                            0 <= j < old(self).orgs@.len() && j != i ==> final(self).orgs@[j]
                                == old(self).orgs@[j]
                        &&& final(self).orgs@[i].id == old(self).orgs@[i].id
                        &&& final(self).orgs@[i].producer_connected == old(
                            self,
                        ).orgs@[i].producer_connected
                        &&& final(self).orgs@[i].subscribers@ == kept
                    }
                },
            },
    {
        proof {
            lemma_find_org(self.orgs@, tenant@);
        }
        match self.get(tenant) {
            None => None,
            Some(i) => {
                let ghost old_orgs = self.orgs@;
                let ghost subs0 = self.orgs@[i as int].subscribers@;
                {
                    let org = &mut self.orgs[i];
                    let mut kept: Vec<Subscriber> = Vec::new();
                    let ghost mut seen: Seq<Subscriber> = Seq::empty();
                    proof {
                        lemma_without_client_empty(client_id);
                    }
                    while org.subscribers.len() > 0
                        invariant
                            seen + org.subscribers@ =~= subs0,
                            kept@ == without_client(seen, client_id),
                            org.id == old_orgs[i as int].id,
                            org.producer_connected == old_orgs[i as int].producer_connected,
                        decreases org.subscribers@.len(),
                    {
                        let ghost before = org.subscribers@;
                        let s = org.subscribers.remove(0);
                        proof {
                            assert(org.subscribers@ =~= before.drop_first());
                            assert(seen.push(s) + org.subscribers@ =~= subs0);
                            lemma_without_client_push(seen, s, client_id);
                        }
                        if s.client_id != client_id {
                            kept.push(s);
                        }
                        proof {
                            seen = seen.push(s);
                        }
                    }
                    proof {
                        assert(seen =~= subs0);
                    }
                    org.subscribers = kept;
                }
                proof {
                    lemma_without_client_props(subs0, client_id);
                    assert(forall|j: int|
                        0 <= j < old_orgs.len() && j != i ==> #[trigger] self.orgs@[j]
                            == old_orgs[j]);
                }
                let count = self.orgs[i].subscribers.len();
                if count == 0 && !self.orgs[i].producer_connected {
                    self.orgs.remove(i);
                    proof {
                        lemma_find_org(self.orgs@, tenant@);
                        assert forall|j: int| 0 <= j < self.orgs@.len() implies (
                        #[trigger] self.orgs@[j]).id@ != tenant@ by {
                            if j < i {
                                assert(self.orgs@[j] == old_orgs[j]);
                            } else {
                                assert(self.orgs@[j] == old_orgs[j + 1]);
                            }
                        }
                    }
                    Some(count)
                } else {
                    proof {
                        lemma_find_org(self.orgs@, tenant@);
                        assert(self.orgs@[i as int].id@ == tenant@);
                        assert(forall|j: int|
                            0 <= j < i ==> (#[trigger] self.orgs@[j]).id@ != tenant@);
                        let f = find_org(self.orgs@, tenant@);
                        if f < i {
                            assert(self.orgs@[f].id@ == tenant@);
                        }
                    }
                    Some(count)
                }
            },
        }
    }
}

/// The tenant's subscribers once the given connection is gone.
pub open spec fn without_client(subs: Seq<Subscriber>, client_id: usize) -> Seq<Subscriber> {
    subs.filter(|s: Subscriber| s.client_id != client_id)
}

proof fn lemma_without_client_empty(client_id: usize)
    ensures
        without_client(Seq::empty(), client_id) == Seq::<Subscriber>::empty(),
{
    reveal(Seq::filter);
}

/// Filtering one more subscriber keeps it exactly when its id differs.
proof fn lemma_without_client_push(subs: Seq<Subscriber>, s: Subscriber, client_id: usize)
    ensures
        without_client(subs.push(s), client_id) == if s.client_id != client_id {
            without_client(subs, client_id).push(s)
        } else {
            without_client(subs, client_id)
        },
{
    reveal(Seq::filter);
    assert(subs.push(s).drop_last() =~= subs);
    assert(subs.push(s).last() == s);
}

/// What survives the filter came from the input: the result is no longer,
/// its entries stand in the input, and distinct ids stay distinct.
proof fn lemma_without_client_props(subs: Seq<Subscriber>, client_id: usize)
    ensures
        without_client(subs, client_id).len() <= subs.len(),
        forall|k: int|
            0 <= k < without_client(subs, client_id).len() ==> subs.contains(
                #[trigger] without_client(subs, client_id)[k],
            ),
        (forall|i: int, j: int|
            0 <= i < j < subs.len() ==> (#[trigger] subs[i]).client_id != (
            #[trigger] subs[j]).client_id) ==> (forall|i: int, j: int|
            0 <= i < j < without_client(subs, client_id).len() ==> (#[trigger] without_client(
                subs,
                client_id,
            )[i]).client_id != (#[trigger] without_client(subs, client_id)[j]).client_id),
    decreases subs.len(),
{
    reveal(Seq::filter);
    if subs.len() == 0 {
    } else {
        let pre = subs.drop_last();
        let s = subs.last();
        lemma_without_client_props(pre, client_id);
        assert(pre.push(s) =~= subs);
        lemma_without_client_push(pre, s, client_id);
        let fpre = without_client(pre, client_id);
        let fall = without_client(subs, client_id);
        assert(forall|k: int| 0 <= k < pre.len() ==> #[trigger] pre[k] == subs[k]);
        assert forall|k: int| 0 <= k < fall.len() implies subs.contains(#[trigger] fall[k]) by {
            if k < fpre.len() {
                assert(pre.contains(fpre[k]));
                let m = choose|m: int| 0 <= m < pre.len() && pre[m] == fpre[k];
                assert(subs[m] == fall[k]);
            } else {
                assert(fall[k] == s);
                assert(subs[subs.len() - 1] == s);
            }
        }
        if forall|i: int, j: int|
            0 <= i < j < subs.len() ==> (#[trigger] subs[i]).client_id != (
            #[trigger] subs[j]).client_id {
            assert forall|i: int, j: int|
                0 <= i < j < fall.len() implies (#[trigger] fall[i]).client_id != (
            #[trigger] fall[j]).client_id by {
                if j < fpre.len() {
                } else if j == fpre.len() && fall.len() > fpre.len() {
                    assert(fall[j] == s);
                    assert(pre.contains(fpre[i]));
                    let m = choose|m: int| 0 <= m < pre.len() && pre[m] == fpre[i];
                    assert(subs[m].client_id != subs[subs.len() - 1].client_id);
                }
            }
        }
    }
}

/// Law: in a well-formed registry no tenant lingers idle — every entry has
/// a subscriber attached or its producer connected.  Each attach and detach
/// operation requires and re-establishes `Registry::wf`, so across any
/// sequence of them the tenant whose last subscriber detached with no
/// producer attached is absent (its removal is stated by
/// `detach_subscriber`).
pub proof fn lemma_no_idle_tenant(reg: Registry, tenant: Seq<char>)
    requires
        reg.wf(),
        reg.has_tenant(tenant),
    ensures
        reg.org_of(tenant).subscribers@.len() > 0 || reg.org_of(tenant).producer_connected,
{
    lemma_find_org(reg.orgs@, tenant);
}

} // verus!

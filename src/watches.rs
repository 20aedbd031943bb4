//! Endpoints of watched namespaces and the callers that watch them.
//!
//! One table holds, for each `(kind, namespace, version)` that someone watches,
//! the endpoint's address, the handle that keeps it alive (a bus connection,
//! generic here), and the set of caller identities. An entry exists exactly as
//! long as its set of callers is not empty: the entry is made with its first
//! caller and dropped when its last caller goes away. Numbers for stand-in
//! addresses come from a counter that the table owns and never resets.
use vstd::prelude::*;

use crate::classify::{Change, Kind};
use crate::naming::{
    kind_word, name_base, path_base, counted_name, counted_path, derivation, is_object_path, is_well_known_name, object_path,
    preferred_name, preferred_path, service_name, NamingError,
};
use crate::text::views;

verus! {

/// Where an endpoint is served: its object path and its bus name.
#[derive(Clone, Debug)]
pub struct Address {
    pub path: String,
    pub name: String,
}

impl Address {
    /// A copy of the address.
    pub fn cloned(&self) -> (r: Address)
        ensures
            r@ == self@,
    {
        Address { path: self.path.clone(), name: self.name.clone() }
    }
}

impl View for Address {
    type V = (Seq<char>, Seq<char>);

    open spec fn view(&self) -> (Seq<char>, Seq<char>) {
        (self.path@, self.name@)
    }
}

/// A watched namespace: its endpoint and who watches it.
pub struct Watched<H> {
    pub kind: Kind,
    pub namespace: String,
    pub version: u64,
    pub address: Address,
    pub handle: H,
    pub callers: Vec<String>,
}

/// Identity of a watched namespace.
pub type WatchKey = (Kind, Seq<char>, u64);

/// What is known of a watched namespace: its endpoint's address, the handle
/// that keeps the endpoint alive, and its callers.
pub struct WatchView<H> {
    pub path: Seq<char>,
    pub name: Seq<char>,
    pub callers: Set<Seq<char>>,
    pub handle: H,
}

impl<H> Watched<H> {
    pub open spec fn key(&self) -> WatchKey {
        (self.kind, self.namespace@, self.version)
    }

    pub open spec fn watch_view(&self) -> WatchView<H> {
        WatchView {
            path: self.address.path@,
            name: self.address.name@,
            callers: views(self.callers@).to_set(),
            handle: self.handle,
        }
    }
}

/// What the table holds: the watched namespaces, and the next stand-in number.
pub struct WatchesView<H> {
    pub watches: Map<WatchKey, WatchView<H>>,
    pub next_id: u64,
}

/// The table of watched namespaces.
pub struct Watches<H> {
    entries: Vec<Watched<H>>,
    next_id: u64,
    model: Ghost<Map<WatchKey, WatchView<H>>>,
}

pub open spec fn callers_ok(callers: Seq<String>) -> bool {
    callers.len() > 0 && views(callers).no_duplicates()
}

impl<H> View for Watches<H> {
    type V = WatchesView<H>;

    closed spec fn view(&self) -> WatchesView<H> {
        WatchesView { watches: self.model@, next_id: self.next_id }
    }
}

/// Whether `(path, name)` is an address derived for `k` while the counter stood
/// below `next_id`: each part is the one derived from the namespace where that is
/// valid, and else one built on a number that the counter handed out.
pub open spec fn address_derived(k: WatchKey, path: Seq<char>, name: Seq<char>, next_id: u64) -> bool {
    &&& if is_object_path(preferred_path(k.0, k.1, k.2)) {
        path == preferred_path(k.0, k.1, k.2)
    } else {
        exists|n: u64| n < next_id && path == #[trigger] counted_path(k.0, n, k.2)
    }
    &&& if is_well_known_name(preferred_name(k.0, k.1, k.2)) {
        name == preferred_name(k.0, k.1, k.2)
    } else {
        exists|n: u64| n < next_id && name == #[trigger] counted_name(k.0, n, k.2)
    }
}

/// Every watched namespace's endpoint is at an address derived for it.
pub open spec fn addresses_derived<H>(s: WatchesView<H>) -> bool {
    forall|k: WatchKey| #[trigger] s.watches.contains_key(k) ==> address_derived(
        k,
        s.watches[k].path,
        s.watches[k].name,
        s.next_id,
    )
}

/// Entries `e` hold exactly the map `m`, one entry per key, each with callers.
pub open spec fn holds<H>(e: Seq<Watched<H>>, m: Map<WatchKey, WatchView<H>>) -> bool {
    &&& forall|i: int| 0 <= i < e.len() ==> m.contains_key(#[trigger] e[i].key()) && m[e[i].key()] == e[i].watch_view()
    &&& forall|k: WatchKey| m.contains_key(k) ==> exists|i: int| 0 <= i < e.len() && #[trigger] e[i].key() == k
    &&& forall|i: int, j: int| 0 <= i < e.len() && 0 <= j < e.len() && i != j ==> #[trigger] e[i].key() != #[trigger] e[j].key()
    &&& forall|i: int| 0 <= i < e.len() ==> callers_ok(#[trigger] e[i].callers@)
}

impl<H> Watches<H> {
    /// The table's invariant.
    pub closed spec fn wf(&self) -> bool {
        holds(self.entries@, self.model@) && addresses_derived(self@)
    }

    /// The table's endpoints are at addresses derived for their namespaces.
    pub proof fn lemma_addresses_derived(&self)
        requires
            self.wf(),
        ensures
            addresses_derived(self@),
    {
    }

    /// An empty table whose stand-in numbers start at `first_id`.
    pub fn new(first_id: u64) -> (r: Self)
        ensures
            r.wf(),
            r@.watches == Map::<WatchKey, WatchView<H>>::empty(),
            r@.next_id == first_id,
    {
        Watches { entries: Vec::new(), next_id: first_id, model: Ghost(Map::empty()) }
    }

    fn find(&self, kind: Kind, namespace: &String, version: u64) -> (r: Option<usize>)
        requires
            self.wf(),
        ensures
            match r {
                Some(i) => i < self.entries@.len() && self.entries@[i as int].key() == (kind, namespace@, version),
                None => !self@.watches.contains_key((kind, namespace@, version)),
            },
    {
        let mut i: usize = 0;
        while i < self.entries.len()
            invariant
                self.wf(),
                i <= self.entries@.len(),
                forall|j: int| 0 <= j < i ==> self.entries@[j].key() != (kind, namespace@, version),
            decreases self.entries@.len() - i,
        {
            let e = &self.entries[i];
            if e.kind == kind && e.version == version && e.namespace == *namespace {
                return Some(i);
            }
            i = i + 1;
        }
        proof {
            let k = (kind, namespace@, version);
            if self.model@.contains_key(k) {
                let j = choose|j: int| 0 <= j < self.entries@.len() && #[trigger] self.entries@[j].key() == k;
            }
        }
        None
    }

    /// The watched namespace `(kind, namespace, version)`, if someone watches it.
    pub fn lookup(&self, kind: Kind, namespace: &str, version: u64) -> (r: Option<&Watched<H>>)
        requires
            self.wf(),
        ensures
            r is Some <==> self@.watches.contains_key((kind, namespace@, version)),
            r matches Some(w) ==> w.key() == (kind, namespace@, version) && w.watch_view()
                == self@.watches[(kind, namespace@, version)],
    {
        let ns = String::from_str(namespace);
        match self.find(kind, &ns, version) {
            Some(i) => Some(&self.entries[i]),
            None => None,
        }
    }

    /// The endpoint on which a change is to be announced: the one of the
    /// changed namespace, if someone watches it. Nothing for a ping.
    pub fn endpoint_for(&self, change: &Change) -> (r: Option<&Watched<H>>)
        requires
            self.wf(),
        ensures
            r is Some <==> announced(self@, change@),
            r matches Some(w) ==> changed_key(change@) == Some(w.key()) && w.watch_view()
                == self@.watches[w.key()],
    {
        match change {
            Change::Config(namespace, _, version) => self.lookup(Kind::Config, namespace.as_str(), *version),
            Change::State(namespace, _, version) => self.lookup(Kind::State, namespace.as_str(), *version),
            Change::Ping(_, _) => None,
        }
    }

    /// Drops the watched namespace `(kind, namespace, version)`, handing back its
    /// entry; nothing changes where nobody watches it.
    pub fn remove(&mut self, kind: Kind, namespace: &str, version: u64) -> (r: Option<Watched<H>>)
        requires
            old(self).wf(),
        ensures
            final(self).wf(),
            final(self)@.watches == old(self)@.watches.remove((kind, namespace@, version)),
            final(self)@.next_id == old(self)@.next_id,
            r is Some <==> old(self)@.watches.contains_key((kind, namespace@, version)),
            r matches Some(w) ==> w.key() == (kind, namespace@, version),
    {
        let ns = String::from_str(namespace);
        match self.find(kind, &ns, version) {
            Some(i) => {
                let ghost k = (kind, namespace@, version);
                let ghost before = self.entries@;
                let w = self.entries.swap_remove(i);
                self.model = Ghost(self.model@.remove(k));
                proof {
                    lemma_holds_after_swap_remove(before, old(self).model@, i as int, self.entries@, self.model@);
                    assert forall|j: WatchKey| #[trigger] self@.watches.contains_key(j) implies address_derived(
                        j,
                        self@.watches[j].path,
                        self@.watches[j].name,
                        self@.next_id,
                    ) by {
                        assert(old(self)@.watches.contains_key(j));
                    };
                }
                Some(w)
            },
            None => {
                assert(self.model@.remove((kind, namespace@, version)) =~= self.model@);
                None
            },
        }
    }

    /// Adds `caller` to the callers of entry `i`.
    fn join(&mut self, i: usize, caller: String)
        requires
            old(self).wf(),
            i < old(self).entries@.len(),
        ensures
            final(self).wf(),
            final(self).entries@.len() == old(self).entries@.len(),
            final(self).entries@[i as int].key() == old(self).entries@[i as int].key(),
            final(self).entries@[i as int].address@ == old(self).entries@[i as int].address@,
            final(self)@ == (WatchesView {
                watches: old(self)@.watches.insert(
                    old(self).entries@[i as int].key(),
                    with_caller(old(self)@.watches[old(self).entries@[i as int].key()], caller@),
                ),
                next_id: old(self)@.next_id,
            }),
    {
        let ghost before = self.entries@;
        let ghost k = before[i as int].key();
        assert(self.model@[k] == before[i as int].watch_view());
        add_caller(&mut self.entries[i].callers, caller);
        proof {
            let e = self.entries@[i as int];
            assert(self.entries@ == before.update(i as int, e));
            lemma_holds_after_update(before, self.model@, i as int, e);
            assert(e.watch_view() == with_caller(self.model@[k], caller@));
        }
        self.model = Ghost(self.model@.insert(k, self.entries@[i as int].watch_view()));
        proof {
            assert forall|j: WatchKey| #[trigger] self@.watches.contains_key(j) implies address_derived(
                j,
                self@.watches[j].path,
                self@.watches[j].name,
                self@.next_id,
            ) by {
                assert(old(self)@.watches.contains_key(j));
            };
        }
    }

    /// First step of a watch request of `caller` for `(kind, namespace, version)`.
    ///
    /// Where the namespace is watched, `caller` joins it and its address comes back
    /// as `Ready`. Else the address for a new endpoint comes back as `Create`, or
    /// an error where the counter has no number left for it; the table then waits
    /// for [`Watches::commit`].
    pub fn prepare(&mut self, kind: Kind, namespace: &str, version: u64, caller: &str) -> (r: Result<Prepared, NamingError>)
        requires
            old(self).wf(),
        ensures
            final(self).wf(),
            (final(self)@, prepared_view(r)) == prepare_step(old(self)@, (kind, namespace@, version), caller@),
    {
        let ns = String::from_str(namespace);
        match self.find(kind, &ns, version) {
            Some(i) => {
                self.join(i, String::from_str(caller));
                Ok(Prepared::Ready(self.entries[i].address.cloned()))
            },
            None => {
                let ghost before = self@;
                let p = object_path(kind, namespace, version, &mut self.next_id);
                let n = service_name(kind, namespace, version, &mut self.next_id);
                proof {
                    assert forall|k: WatchKey| #[trigger] self@.watches.contains_key(k) implies address_derived(
                        k,
                        self@.watches[k].path,
                        self@.watches[k].name,
                        self@.next_id,
                    ) by {
                        lemma_address_derived_later(
                            k,
                            before.watches[k].path,
                            before.watches[k].name,
                            before.next_id,
                            self.next_id,
                        );
                    };
                }
                match (p, n) {
                    (Ok(path), Ok(name)) => Ok(Prepared::Create(Address { path, name })),
                    _ => Err(NamingError::CounterExhausted),
                }
            },
        }
    }

    /// Second step of a watch request: records the endpoint made at `address`,
    /// kept alive by `handle`, with `caller` as its caller. `address` is one
    /// derived for the namespace, as the `Create` that [`Watches::prepare`]
    /// handed out is (see [`lemma_created_address_derived`]).
    ///
    /// Comes back with the address that `caller` is to use, and `handle` where it
    /// is surplus because the namespace got an endpoint meanwhile (the caller then
    /// joins that one).
    pub fn commit(
        &mut self,
        kind: Kind,
        namespace: &str,
        version: u64,
        caller: &str,
        address: Address,
        handle: H,
    ) -> (r: (Address, Option<H>))
        requires
            old(self).wf(),
            address_derived((kind, namespace@, version), address@.0, address@.1, old(self)@.next_id),
        ensures
            final(self).wf(),
            (final(self)@, r.0@, r.1 is Some) == commit_step(old(self)@, (kind, namespace@, version), caller@, address@, handle),
            r.1 matches Some(h) ==> h == handle,
    {
        let ns = String::from_str(namespace);
        match self.find(kind, &ns, version) {
            Some(i) => {
                self.join(i, String::from_str(caller));
                (self.entries[i].address.cloned(), Some(handle))
            },
            None => {
                let c = String::from_str(caller);
                let r = address.cloned();
                let callers = vec![c];
                let e = Watched { kind, namespace: ns, version, address, handle, callers };
                proof {
                    assert(views(e.callers@) =~= seq![caller@]);
                    assert(views(e.callers@).to_set() =~= set![caller@]) by {
                        assert(views(e.callers@)[0] == caller@);
                    };
                    lemma_holds_after_push(self.entries@, self.model@, e);
                }
                let ghost k = e.key();
                let ghost wv = e.watch_view();
                self.entries.push(e);
                self.model = Ghost(self.model@.insert(k, wv));
                (r, None)
            },
        }
    }

    /// `caller` went away: removes it from every set of callers and drops every
    /// namespace left with no callers, handing back their entries, each with its
    /// own handle, so that their endpoints can be closed. Kept namespaces keep
    /// their handles.
    pub fn release(&mut self, caller: &str) -> (r: Vec<Watched<H>>)
        requires
            old(self).wf(),
        ensures
            final(self).wf(),
            final(self)@ == released(old(self)@, caller@),
            forall|i: int| 0 <= i < r@.len() ==> torn_down(old(self)@, caller@, #[trigger] r@[i].key())
                && r@[i].address@ == (old(self)@.watches[r@[i].key()].path, old(self)@.watches[r@[i].key()].name)
                && r@[i].handle == old(self)@.watches[r@[i].key()].handle,
            forall|k: WatchKey| torn_down(old(self)@, caller@, k) ==> exists|i: int| 0 <= i < r@.len() && #[trigger] r@[i].key() == k,
    {
        let c = String::from_str(caller);
        let mut rest: Vec<Watched<H>> = Vec::new();
        std::mem::swap(&mut self.entries, &mut rest);
        let ghost orig = rest@;
        let ghost m0 = self.model@;
        let ghost s0 = old(self)@;
        let ghost target = released(s0, caller@).watches;
        self.model = Ghost(Map::empty());
        let mut gone: Vec<Watched<H>> = Vec::new();
        while rest.len() > 0
            invariant
                holds(orig, m0),
                m0 == s0.watches,
                target == released(s0, caller@).watches,
                c@ == caller@,
                self.next_id == s0.next_id,
                rest@.len() <= orig.len(),
                rest@ == orig.subrange(0, rest@.len() as int),
                holds(self.entries@, self.model@),
                forall|k: WatchKey| #[trigger] self.model@.contains_key(k) ==> target.contains_key(k) && self.model@[k] == target[k],
                forall|j: int| 0 <= j < self.entries@.len() ==> exists|x: int| rest@.len() <= x < orig.len() && orig[x].key() == #[trigger] self.entries@[j].key(),
                forall|x: int| rest@.len() <= x < orig.len() && target.contains_key(#[trigger] orig[x].key()) ==> self.model@.contains_key(orig[x].key()),
                forall|i: int| 0 <= i < gone@.len() ==> torn_down(s0, caller@, #[trigger] gone@[i].key())
                    && gone@[i].address@ == (m0[gone@[i].key()].path, m0[gone@[i].key()].name)
                    && gone@[i].handle == m0[gone@[i].key()].handle,
                forall|x: int| rest@.len() <= x < orig.len() && torn_down(s0, caller@, #[trigger] orig[x].key()) ==> exists|i: int| 0 <= i < gone@.len() && #[trigger] gone@[i].key() == orig[x].key(),
            decreases rest@.len(),
        {
            let ghost x = rest@.len() - 1;
            let ghost gone_before = gone@;
            assert(rest@[x] == orig[x]);
            assert(forall|y: int| x < y < orig.len() && torn_down(s0, caller@, #[trigger] orig[y].key()) ==> exists|i: int| 0 <= i < gone_before.len() && #[trigger] gone_before[i].key() == orig[y].key());
            let mut e = rest.pop().unwrap();
            let ghost k = e.key();
            proof {
                assert(orig[x] == e);
                assert(m0.contains_key(k) && m0[k] == e.watch_view());
                assert forall|j: int| 0 <= j < self.entries@.len() implies #[trigger] self.entries@[j].key() != k by {
                    let y = choose|y: int| rest@.len() + 1 <= y < orig.len() && orig[y].key() == self.entries@[j].key();
                    assert(y != x);
                };
                assert(!self.model@.contains_key(k)) by {
                    if self.model@.contains_key(k) {
                        let j = choose|j: int| 0 <= j < self.entries@.len() && #[trigger] self.entries@[j].key() == k;
                    }
                };
            }
            drop_caller(&mut e.callers, &c);
            proof {
                lemma_callers_set_empty(e.callers@);
            }
            if e.callers.len() == 0 {
                gone.push(e);
                proof {
                    assert(torn_down(s0, caller@, k));
                    assert forall|y: int| rest@.len() <= y < orig.len() && torn_down(s0, caller@, #[trigger] orig[y].key()) implies exists|i: int| 0 <= i < gone@.len() && #[trigger] gone@[i].key() == orig[y].key() by {
                        if y == x {
                            assert(gone@[gone@.len() - 1].key() == orig[y].key());
                        } else {
                            let i = choose|i: int| 0 <= i < gone_before.len() && #[trigger] gone_before[i].key() == orig[y].key();
                            assert(gone@[i] == gone_before[i]);
                        }
                    };
                    assert forall|y: int| rest@.len() <= y < orig.len() && target.contains_key(#[trigger] orig[y].key()) implies self.model@.contains_key(orig[y].key()) by {
                        if y == x {
                            assert(!target.contains_key(k));
                        }
                    };
                }
            } else {
                proof {
                    assert(callers_ok(e.callers@));
                    assert(target.contains_key(k));
                    assert(e.watch_view() == target[k]);
                    lemma_holds_after_push(self.entries@, self.model@, e);
                }
                let ghost wv = e.watch_view();
                self.entries.push(e);
                self.model = Ghost(self.model@.insert(k, wv));
                proof {
                    assert forall|j: int| 0 <= j < self.entries@.len() implies exists|y: int| rest@.len() <= y < orig.len() && orig[y].key() == #[trigger] self.entries@[j].key() by {
                        if j == self.entries@.len() - 1 {
                            assert(orig[x].key() == self.entries@[j].key());
                        } else {
                            let y = choose|y: int| rest@.len() + 1 <= y < orig.len() && orig[y].key() == self.entries@[j].key();
                        }
                    };
                }
            }
        }
        proof {
            assert forall|k: WatchKey| target.contains_key(k) implies self.model@.contains_key(k) by {
                let x = choose|x: int| 0 <= x < orig.len() && #[trigger] orig[x].key() == k;
            };
            assert(self.model@ =~= target);
            assert forall|k: WatchKey| torn_down(old(self)@, caller@, k) implies exists|i: int| 0 <= i < gone@.len() && #[trigger] gone@[i].key() == k by {
                let x = choose|x: int| 0 <= x < orig.len() && #[trigger] orig[x].key() == k;
            };
        }
        gone
    }

    /// Every watched namespace has at least one caller: an endpoint lives only
    /// while someone watches it.
    pub proof fn lemma_watched_have_callers(&self)
        requires
            self.wf(),
        ensures
            forall|k: WatchKey| #[trigger] self@.watches.contains_key(k) ==> self@.watches[k].callers != Set::<Seq<char>>::empty(),
    {
        assert forall|k: WatchKey| #[trigger] self@.watches.contains_key(k) implies self@.watches[k].callers != Set::<Seq<char>>::empty() by {
            let i = choose|i: int| 0 <= i < self.entries@.len() && #[trigger] self.entries@[i].key() == k;
            lemma_callers_set_empty(self.entries@[i].callers@);
        };
    }
}

fn position_of(callers: &Vec<String>, c: &String) -> (r: Option<usize>)
    ensures
        match r {
            Some(j) => j < callers@.len() && callers@[j as int]@ == c@,
            None => !views(callers@).contains(c@),
        },
{
    let mut j: usize = 0;
    while j < callers.len()
        invariant
            j <= callers@.len(),
            forall|x: int| 0 <= x < j ==> callers@[x]@ != c@,
        decreases callers@.len() - j,
    {
        if callers[j] == *c {
            return Some(j);
        }
        j = j + 1;
    }
    proof {
        if views(callers@).contains(c@) {
            let x = choose|x: int| 0 <= x < views(callers@).len() && views(callers@)[x] == c@;
            assert(callers@[x]@ == c@);
        }
    }
    None
}

/// Adds `c` to a set of callers without duplicates.
fn add_caller(callers: &mut Vec<String>, c: String)
    requires
        views(old(callers)@).no_duplicates(),
    ensures
        views(final(callers)@).no_duplicates(),
        views(final(callers)@).to_set() == views(old(callers)@).to_set().insert(c@),
        final(callers)@.len() >= old(callers)@.len(),
{
    match position_of(callers, &c) {
        Some(j) => {
            assert(views(callers@)[j as int] == c@);
            assert(views(callers@).to_set().insert(c@) =~= views(callers@).to_set());
        },
        None => {
            let ghost before = callers@;
            callers.push(c);
            proof {
                let vb = views(before);
                let va = views(callers@);
                assert(va =~= vb.push(c@));
                assert(va.to_set() =~= vb.to_set().insert(c@)) by {
                    assert forall|x: Seq<char>| va.contains(x) implies vb.to_set().insert(c@).contains(x) by {
                        let i = choose|i: int| 0 <= i < va.len() && va[i] == x;
                        if i < vb.len() {
                            assert(vb[i] == x);
                        }
                    };
                    assert forall|x: Seq<char>| vb.to_set().insert(c@).contains(x) implies va.contains(x) by {
                        if x == c@ {
                            assert(va[vb.len() as int] == x);
                        } else {
                            let i = choose|i: int| 0 <= i < vb.len() && vb[i] == x;
                            assert(va[i] == x);
                        }
                    };
                };
            }
        },
    }
}

/// Removes `c` from a set of callers without duplicates.
fn drop_caller(callers: &mut Vec<String>, c: &String)
    requires
        views(old(callers)@).no_duplicates(),
    ensures
        views(final(callers)@).no_duplicates(),
        views(final(callers)@).to_set() == views(old(callers)@).to_set().remove(c@),
{
    match position_of(callers, c) {
        Some(j) => {
            let ghost before = callers@;
            callers.swap_remove(j);
            proof {
                let vb = views(before);
                let va = views(callers@);
                let last = vb.len() - 1;
                assert(va =~= vb.update(j as int, vb.last()).drop_last());
                assert forall|x: int, y: int| 0 <= x < va.len() && 0 <= y < va.len() && x != y implies va[x] != va[y] by {
                    let x0 = if x == j { last } else { x };
                    let y0 = if y == j { last } else { y };
                    assert(va[x] == vb[x0]);
                    assert(va[y] == vb[y0]);
                };
                assert(va.to_set() =~= vb.to_set().remove(c@)) by {
                    assert forall|s: Seq<char>| va.contains(s) implies vb.to_set().remove(c@).contains(s) by {
                        let x = choose|x: int| 0 <= x < va.len() && va[x] == s;
                        let x0 = if x == j { last } else { x };
                        assert(va[x] == vb[x0]);
                        assert(x0 != j);
                        assert(vb[j as int] == c@);
                        assert(vb[x0] != vb[j as int]);
                    };
                    assert forall|s: Seq<char>| vb.to_set().remove(c@).contains(s) implies va.contains(s) by {
                        let x = choose|x: int| 0 <= x < vb.len() && vb[x] == s;
                        assert(x != j);
                        if x == last {
                            assert(va[j as int] == s);
                        } else {
                            assert(va[x] == s);
                        }
                    };
                };
            }
        },
        None => {
            assert(views(callers@).to_set().remove(c@) =~= views(callers@).to_set());
        },
    }
}

proof fn lemma_callers_set_empty(callers: Seq<String>)
    ensures
        callers.len() == 0 <==> views(callers).to_set() == Set::<Seq<char>>::empty(),
{
    if callers.len() == 0 {
        assert(views(callers).to_set() =~= Set::<Seq<char>>::empty());
    } else {
        assert(views(callers).to_set().contains(callers[0]@)) by {
            assert(views(callers)[0] == callers[0]@);
        };
    }
}

proof fn lemma_holds_after_update<H>(
    before: Seq<Watched<H>>,
    m: Map<WatchKey, WatchView<H>>,
    i: int,
    e: Watched<H>,
)
    requires
        holds(before, m),
        0 <= i < before.len(),
        e.key() == before[i].key(),
        callers_ok(e.callers@),
    ensures
        holds(before.update(i, e), m.insert(e.key(), e.watch_view())),
{
    let after = before.update(i, e);
    let m2 = m.insert(e.key(), e.watch_view());
    assert forall|k: WatchKey| m2.contains_key(k) implies exists|j: int| 0 <= j < after.len() && #[trigger] after[j].key() == k by {
        if k == e.key() {
            assert(after[i].key() == k);
        } else {
            let j = choose|j: int| 0 <= j < before.len() && #[trigger] before[j].key() == k;
            assert(after[j].key() == k);
        }
    };
    assert forall|j: int| 0 <= j < after.len() implies m2.contains_key(#[trigger] after[j].key()) && m2[after[j].key()] == after[j].watch_view() by {
        if j != i {
            assert(before[j].key() != before[i].key());
        }
    };
}

proof fn lemma_holds_after_push<H>(before: Seq<Watched<H>>, m: Map<WatchKey, WatchView<H>>, e: Watched<H>)
    requires
        holds(before, m),
        !m.contains_key(e.key()),
        callers_ok(e.callers@),
    ensures
        holds(before.push(e), m.insert(e.key(), e.watch_view())),
{
    let after = before.push(e);
    let m2 = m.insert(e.key(), e.watch_view());
    let n = before.len() as int;
    assert forall|k: WatchKey| m2.contains_key(k) implies exists|j: int| 0 <= j < after.len() && #[trigger] after[j].key() == k by {
        if k == e.key() {
            assert(after[n].key() == k);
        } else {
            let j = choose|j: int| 0 <= j < before.len() && #[trigger] before[j].key() == k;
            assert(after[j].key() == k);
        }
    };
    assert forall|j: int| 0 <= j < after.len() implies m2.contains_key(#[trigger] after[j].key()) && m2[after[j].key()] == after[j].watch_view() by {
        if j < n {
            assert(after[j] == before[j]);
            assert(m.contains_key(before[j].key()));
        }
    };
    assert forall|a: int, b: int| 0 <= a < after.len() && 0 <= b < after.len() && a != b implies #[trigger] after[a].key() != #[trigger] after[b].key() by {
        if a < n && b < n {
            assert(after[a] == before[a] && after[b] == before[b]);
        } else if a < n {
            assert(m.contains_key(before[a].key()));
        } else {
            assert(m.contains_key(before[b].key()));
        }
    };
}

/// How a watch request goes on: the namespace is watched already and its
/// endpoint is at `Ready`'s address, or an endpoint is to be made at `Create`'s.
#[derive(Clone, Debug)]
pub enum Prepared {
    Ready(Address),
    Create(Address),
}

pub enum PreparedView {
    Ready(Seq<char>, Seq<char>),
    Create(Seq<char>, Seq<char>),
}

impl View for Prepared {
    type V = PreparedView;

    open spec fn view(&self) -> PreparedView {
        match self {
            Prepared::Ready(a) => PreparedView::Ready(a.path@, a.name@),
            Prepared::Create(a) => PreparedView::Create(a.path@, a.name@),
        }
    }
}

pub open spec fn prepared_view(r: Result<Prepared, NamingError>) -> Result<PreparedView, NamingError> {
    match r {
        Ok(p) => Ok(p@),
        Err(e) => Err(e),
    }
}

pub open spec fn with_caller<H>(w: WatchView<H>, caller: Seq<char>) -> WatchView<H> {
    WatchView { callers: w.callers.insert(caller), ..w }
}

/// A watch request of `caller` for `k`: where `k` is watched, the caller joins
/// its callers and the request is ready at the endpoint's address; else the
/// address of a new endpoint is derived (drawing on the counter), and nothing
/// else changes until the endpoint is made.
pub open spec fn prepare_step<H>(s: WatchesView<H>, k: WatchKey, caller: Seq<char>) -> (
    WatchesView<H>,
    Result<PreparedView, NamingError>,
) {
    if s.watches.contains_key(k) {
        (
            WatchesView { watches: s.watches.insert(k, with_caller(s.watches[k], caller)), next_id: s.next_id },
            Ok(PreparedView::Ready(s.watches[k].path, s.watches[k].name)),
        )
    } else {
        let (p, c1) = derivation(
            is_object_path(preferred_path(k.0, k.1, k.2)),
            preferred_path(k.0, k.1, k.2),
            counted_path(k.0, s.next_id, k.2),
            s.next_id,
        );
        let (n, c2) = derivation(
            is_well_known_name(preferred_name(k.0, k.1, k.2)),
            preferred_name(k.0, k.1, k.2),
            counted_name(k.0, c1, k.2),
            c1,
        );
        let s2 = WatchesView { watches: s.watches, next_id: c2 };
        if p is Ok && n is Ok {
            (s2, Ok(PreparedView::Create(p->Ok_0, n->Ok_0)))
        } else {
            (s2, Err(NamingError::CounterExhausted))
        }
    }
}

/// An endpoint made at `address` for `caller`'s request of `k`: recorded with
/// `caller` as its one caller. Where `k` got an endpoint meanwhile, the caller
/// joins that one instead and the new endpoint is surplus. The address the
/// caller is to use, and whether the new endpoint is surplus, come with it.
pub open spec fn commit_step<H>(
    s: WatchesView<H>,
    k: WatchKey,
    caller: Seq<char>,
    address: (Seq<char>, Seq<char>),
    handle: H,
) -> (
    WatchesView<H>,
    (Seq<char>, Seq<char>),
    bool,
) {
    if s.watches.contains_key(k) {
        (
            WatchesView { watches: s.watches.insert(k, with_caller(s.watches[k], caller)), next_id: s.next_id },
            (s.watches[k].path, s.watches[k].name),
            true,
        )
    } else {
        (
            WatchesView {
                watches: s.watches.insert(k, WatchView { path: address.0, name: address.1, callers: set![caller], handle }),
                next_id: s.next_id,
            },
            address,
            false,
        )
    }
}

/// Whether `caller` going away leaves `k` with no callers.
pub open spec fn torn_down<H>(s: WatchesView<H>, caller: Seq<char>, k: WatchKey) -> bool {
    s.watches.contains_key(k) && s.watches[k].callers.remove(caller) == Set::<Seq<char>>::empty()
}

/// `caller` goes away: it leaves every set of callers, and every namespace
/// left with no callers is no longer watched.
pub open spec fn released<H>(s: WatchesView<H>, caller: Seq<char>) -> WatchesView<H> {
    WatchesView {
        watches: Map::new(
            |k: WatchKey| s.watches.contains_key(k) && !torn_down(s, caller, k),
            |k: WatchKey| WatchView { callers: s.watches[k].callers.remove(caller), ..s.watches[k] },
        ),
        next_id: s.next_id,
    }
}

proof fn lemma_address_derived_later(k: WatchKey, path: Seq<char>, name: Seq<char>, a: u64, b: u64)
    requires
        address_derived(k, path, name, a),
        a <= b,
    ensures
        address_derived(k, path, name, b),
{
    if !is_object_path(preferred_path(k.0, k.1, k.2)) {
        let n = choose|n: u64| n < a && path == #[trigger] counted_path(k.0, n, k.2);
        assert(n < b && path == counted_path(k.0, n, k.2));
    }
    if !is_well_known_name(preferred_name(k.0, k.1, k.2)) {
        let n = choose|n: u64| n < a && name == #[trigger] counted_name(k.0, n, k.2);
        assert(n < b && name == counted_name(k.0, n, k.2));
    }
}

/// The key of the namespace whose change this is; nothing for a ping.
pub open spec fn changed_key(change: crate::classify::ChangeView) -> Option<WatchKey> {
    match change {
        crate::classify::ChangeView::Config(n, _, v) => Some((Kind::Config, n, v)),
        crate::classify::ChangeView::State(n, _, v) => Some((Kind::State, n, v)),
        crate::classify::ChangeView::Ping(_, _) => None,
    }
}

/// Whether a change is announced: whether someone watches its namespace.
pub open spec fn announced<H>(s: WatchesView<H>, change: crate::classify::ChangeView) -> bool {
    changed_key(change) matches Some(k) && s.watches.contains_key(k)
}

proof fn lemma_holds_after_swap_remove<H>(
    before: Seq<Watched<H>>,
    m: Map<WatchKey, WatchView<H>>,
    i: int,
    after: Seq<Watched<H>>,
    m2: Map<WatchKey, WatchView<H>>,
)
    requires
        holds(before, m),
        0 <= i < before.len(),
        after == before.update(i, before.last()).drop_last(),
        m2 == m.remove(before[i].key()),
    ensures
        holds(after, m2),
{
    let last = before.len() - 1;
    assert forall|j: int| 0 <= j < after.len() implies #[trigger] after[j].key() != before[i].key()
        && m2.contains_key(after[j].key()) && m2[after[j].key()] == after[j].watch_view() by {
        if j == i {
            assert(after[j] == before[last]);
        } else {
            assert(after[j] == before[j]);
        }
    };
    assert forall|k: WatchKey| m2.contains_key(k) implies exists|j: int| 0 <= j < after.len() && #[trigger] after[j].key() == k by {
        let j = choose|j: int| 0 <= j < before.len() && #[trigger] before[j].key() == k;
        if j == last {
            assert(after[i].key() == k);
        } else {
            assert(after[j].key() == k);
        }
    };
    assert forall|a: int, b: int| 0 <= a < after.len() && 0 <= b < after.len() && a != b implies #[trigger] after[a].key() != #[trigger] after[b].key() by {
        let a0 = if a == i { last } else { a };
        let b0 = if b == i { last } else { b };
        assert(after[a] == before[a0]);
        assert(after[b] == before[b0]);
    };
    assert forall|j: int| 0 <= j < after.len() implies callers_ok(#[trigger] after[j].callers@) by {
        if j == i {
            assert(after[j] == before[last]);
        } else {
            assert(after[j] == before[j]);
        }
    };
}

/// Once an endpoint is recorded for a namespace, a later request for it is ready
/// at that same address: it makes no other endpoint, draws nothing from the
/// counter, and only adds its caller.
pub proof fn lemma_watch_idempotent<H>(
    s: WatchesView<H>,
    k: WatchKey,
    first: Seq<char>,
    second: Seq<char>,
    address: (Seq<char>, Seq<char>),
    handle: H,
)
    ensures
        ({
            let (s1, used, _) = commit_step(s, k, first, address, handle);
            let (s2, r) = prepare_step(s1, k, second);
            &&& r == Ok::<PreparedView, NamingError>(PreparedView::Ready(used.0, used.1))
            &&& s1.watches.contains_key(k)
            &&& (s1.watches[k].path, s1.watches[k].name) == used
            &&& s2.watches.dom() == s1.watches.dom()
            &&& s2.next_id == s1.next_id
            &&& s2.watches[k] == with_caller(s1.watches[k], second)
            &&& s2.watches[k].handle == s1.watches[k].handle
            &&& forall|j: WatchKey| j != k && #[trigger] s1.watches.contains_key(j) ==> s2.watches[j] == s1.watches[j]
        }),
{
    let (s1, used, _) = commit_step(s, k, first, address, handle);
    let (s2, r) = prepare_step(s1, k, second);
    assert(s2.watches.dom() =~= s1.watches.dom());
}

/// Two requests for a namespace nobody watches, whose endpoints are made side
/// by side: the first one recorded, with its handle, stays the namespace's only
/// endpoint, the second is surplus, and both callers get the first one's address.
pub proof fn lemma_racing_requests_share<H>(
    s: WatchesView<H>,
    k: WatchKey,
    a: Seq<char>,
    b: Seq<char>,
    address_a: (Seq<char>, Seq<char>),
    address_b: (Seq<char>, Seq<char>),
    handle_a: H,
    handle_b: H,
)
    requires
        !s.watches.contains_key(k),
    ensures
        ({
            let (s1, used_a, surplus_a) = commit_step(s, k, a, address_a, handle_a);
            let (s2, used_b, surplus_b) = commit_step(s1, k, b, address_b, handle_b);
            &&& used_a == address_a && used_b == address_a
            &&& !surplus_a && surplus_b
            &&& s2.watches.dom() == s.watches.dom().insert(k)
            &&& s2.watches[k] == (WatchView { path: address_a.0, name: address_a.1, callers: set![a, b], handle: handle_a })
        }),
{
    let (s1, used_a, surplus_a) = commit_step(s, k, a, address_a, handle_a);
    let (s2, used_b, surplus_b) = commit_step(s1, k, b, address_b, handle_b);
    assert(s2.watches.dom() =~= s.watches.dom().insert(k));
    assert(set![a].insert(b) =~= set![a, b]);
}

/// Of two callers of a namespace, the first going away leaves its endpoint, and
/// the handle that keeps it alive, as they were; the second going away then drops it, and from there on no change of the
/// namespace is announced.
pub proof fn lemma_last_caller_tears_down<H>(s: WatchesView<H>, k: WatchKey, a: Seq<char>, b: Seq<char>, key: Seq<char>)
    requires
        s.watches.contains_key(k),
        s.watches[k].callers == set![a, b],
        a != b,
    ensures
        released(s, a).watches.contains_key(k),
        released(s, a).watches[k].path == s.watches[k].path,
        released(s, a).watches[k].name == s.watches[k].name,
        released(s, a).watches[k].handle == s.watches[k].handle,
        !released(released(s, a), b).watches.contains_key(k),
        !announced(released(released(s, a), b), crate::classify::change_record(k.0, k.1, key, k.2)),
{
    assert(set![a, b].remove(a) =~= set![b]);
    assert(set![b].contains(b));
    assert(set![b].remove(b) =~= Set::<Seq<char>>::empty());
    assert(set![a, b].remove(a) != Set::<Seq<char>>::empty());
}

/// A caller that went away is in no set of callers afterwards, and every
/// namespace still watched keeps its endpoint, its handle and its other callers.
pub proof fn lemma_released_caller_gone<H>(s: WatchesView<H>, caller: Seq<char>)
    ensures
        forall|k: WatchKey| #[trigger] released(s, caller).watches.contains_key(k) ==> {
            &&& !released(s, caller).watches[k].callers.contains(caller)
            &&& s.watches.contains_key(k)
            &&& released(s, caller).watches[k].path == s.watches[k].path
            &&& released(s, caller).watches[k].name == s.watches[k].name
            &&& released(s, caller).watches[k].handle == s.watches[k].handle
            &&& released(s, caller).watches[k].callers == s.watches[k].callers.remove(caller)
        },
{
}

/// A change of a namespace that nobody watches is announced nowhere.
pub proof fn lemma_unwatched_not_announced<H>(s: WatchesView<H>, change: crate::classify::ChangeView)
    requires
        forall|k: WatchKey| changed_key(change) == Some(k) ==> !s.watches.contains_key(k),
    ensures
        !announced(s, change),
{
}

/// Whether `s` starts with `p`.
pub open spec fn starts_with(s: Seq<char>, p: Seq<char>) -> bool {
    p.len() <= s.len() && s.subrange(0, p.len() as int) == p
}

/// How every object path of an endpoint of `kind` starts.
pub open spec fn path_prefix(kind: Kind) -> Seq<char> {
    path_base() + kind_word(kind) + seq!['/']
}

/// How every bus name of an endpoint of `kind` starts.
pub open spec fn name_prefix(kind: Kind) -> Seq<char> {
    name_base() + kind_word(kind) + seq!['.']
}

/// The address that a request for a namespace nobody watches comes back with is
/// derived for that namespace, and nothing but the counter changes.
pub proof fn lemma_created_address_derived<H>(s: WatchesView<H>, k: WatchKey, caller: Seq<char>)
    requires
        !s.watches.contains_key(k),
    ensures
        ({
            let (s2, r) = prepare_step(s, k, caller);
            &&& s2.watches == s.watches
            &&& s2.next_id >= s.next_id
            &&& (r matches Ok(PreparedView::Create(p, n)) ==> address_derived(k, p, n, s2.next_id))
        }),
{
    let (s2, r) = prepare_step(s, k, caller);
    let (pr, c1) = derivation(
        is_object_path(preferred_path(k.0, k.1, k.2)),
        preferred_path(k.0, k.1, k.2),
        counted_path(k.0, s.next_id, k.2),
        s.next_id,
    );
    let (nr, c2) = derivation(
        is_well_known_name(preferred_name(k.0, k.1, k.2)),
        preferred_name(k.0, k.1, k.2),
        counted_name(k.0, c1, k.2),
        c1,
    );
    if r is Ok {
        if !is_object_path(preferred_path(k.0, k.1, k.2)) {
            assert(s.next_id < s2.next_id && pr->Ok_0 == counted_path(k.0, s.next_id, k.2));
        }
        if !is_well_known_name(preferred_name(k.0, k.1, k.2)) {
            assert(c1 < s2.next_id && nr->Ok_0 == counted_name(k.0, c1, k.2));
        }
    }
}

proof fn lemma_starts_with_concat(pre: Seq<char>, rest: Seq<char>)
    ensures
        starts_with(pre + rest, pre),
{
    assert((pre + rest).subrange(0, pre.len() as int) =~= pre);
}

proof fn lemma_preferred_path_prefixed(k: WatchKey)
    ensures
        starts_with(preferred_path(k.0, k.1, k.2), path_prefix(k.0)),
{
    let rest = crate::naming::dots_as_slashes(k.1) + seq!['/', 'V'] + crate::naming::dec(k.2 as nat);
    assert(preferred_path(k.0, k.1, k.2) =~= path_prefix(k.0) + rest);
    lemma_starts_with_concat(path_prefix(k.0), rest);
}

proof fn lemma_counted_path_prefixed(kind: Kind, n: u64, v: u64)
    ensures
        starts_with(counted_path(kind, n, v), path_prefix(kind)),
{
    let rest = seq!['C'] + crate::naming::dec(n as nat) + seq!['/', 'V'] + crate::naming::dec(v as nat);
    assert(counted_path(kind, n, v) =~= path_prefix(kind) + rest);
    lemma_starts_with_concat(path_prefix(kind), rest);
}

proof fn lemma_preferred_name_prefixed(k: WatchKey)
    ensures
        starts_with(preferred_name(k.0, k.1, k.2), name_prefix(k.0)),
{
    let rest = k.1 + seq!['.', 'V'] + crate::naming::dec(k.2 as nat);
    assert(preferred_name(k.0, k.1, k.2) =~= name_prefix(k.0) + rest);
    lemma_starts_with_concat(name_prefix(k.0), rest);
}

proof fn lemma_counted_name_prefixed(kind: Kind, n: u64, v: u64)
    ensures
        starts_with(counted_name(kind, n, v), name_prefix(kind)),
{
    let rest = seq!['C'] + crate::naming::dec(n as nat) + seq!['.', 'V'] + crate::naming::dec(v as nat);
    assert(counted_name(kind, n, v) =~= name_prefix(kind) + rest);
    lemma_starts_with_concat(name_prefix(kind), rest);
}

/// An address derived for a namespace of `kind` starts with that kind's prefixes.
pub proof fn lemma_derived_address_prefixed(k: WatchKey, path: Seq<char>, name: Seq<char>, next_id: u64)
    requires
        address_derived(k, path, name, next_id),
    ensures
        starts_with(path, path_prefix(k.0)),
        starts_with(name, name_prefix(k.0)),
{
    if is_object_path(preferred_path(k.0, k.1, k.2)) {
        lemma_preferred_path_prefixed(k);
    } else {
        let n = choose|n: u64| n < next_id && path == #[trigger] counted_path(k.0, n, k.2);
        lemma_counted_path_prefixed(k.0, n, k.2);
    }
    if is_well_known_name(preferred_name(k.0, k.1, k.2)) {
        lemma_preferred_name_prefixed(k);
    } else {
        let n = choose|n: u64| n < next_id && name == #[trigger] counted_name(k.0, n, k.2);
        lemma_counted_name_prefixed(k.0, n, k.2);
    }
}

/// A watch request of a kind, granted or to be granted, comes back with an
/// address of that kind: a State request with a path under `.../State/` and a
/// name under `....State.`, a Config request likewise under `Config`.
pub proof fn lemma_watch_address_of_kind<H>(s: WatchesView<H>, k: WatchKey, caller: Seq<char>)
    requires
        addresses_derived(s),
    ensures
        (prepare_step(s, k, caller).1 matches Ok(PreparedView::Ready(p, n)) ==> starts_with(p, path_prefix(k.0))
            && starts_with(n, name_prefix(k.0))),
        (prepare_step(s, k, caller).1 matches Ok(PreparedView::Create(p, n)) ==> starts_with(p, path_prefix(k.0))
            && starts_with(n, name_prefix(k.0))),
{
    let (s2, r) = prepare_step(s, k, caller);
    if s.watches.contains_key(k) {
        lemma_derived_address_prefixed(k, s.watches[k].path, s.watches[k].name, s.next_id);
    } else {
        lemma_created_address_derived(s, k, caller);
        if let Ok(PreparedView::Create(p, n)) = r {
            lemma_derived_address_prefixed(k, p, n, s2.next_id);
        }
    }
}

proof fn lemma_prefixes_differ(a: Seq<char>, b: Seq<char>, base: Seq<char>, k1: Kind, k2: Kind, sep: char)
    requires
        k1 != k2,
        starts_with(a, base + kind_word(k1) + seq![sep]),
        starts_with(b, base + kind_word(k2) + seq![sep]),
    ensures
        a != b,
{
    reveal_strlit("Config");
    reveal_strlit("State");
    let i = base.len() as int;
    assert((base + kind_word(k1) + seq![sep])[i] == kind_word(k1)[0]);
    assert((base + kind_word(k2) + seq![sep])[i] == kind_word(k2)[0]);
    assert(a[i] == a.subrange(0, (base + kind_word(k1) + seq![sep]).len() as int)[i]);
    assert(b[i] == b.subrange(0, (base + kind_word(k2) + seq![sep]).len() as int)[i]);
}

/// The Config and State endpoints are kept apart: two watched namespaces of
/// different kinds, even with the same name and version, are served at
/// different object paths under different bus names.
pub proof fn lemma_kinds_apart<H>(s: WatchesView<H>, k1: WatchKey, k2: WatchKey)
    requires
        addresses_derived(s),
        s.watches.contains_key(k1),
        s.watches.contains_key(k2),
        k1.0 != k2.0,
    ensures
        s.watches[k1].path != s.watches[k2].path,
        s.watches[k1].name != s.watches[k2].name,
{
    lemma_derived_address_prefixed(k1, s.watches[k1].path, s.watches[k1].name, s.next_id);
    lemma_derived_address_prefixed(k2, s.watches[k2].path, s.watches[k2].name, s.next_id);
    lemma_prefixes_differ(s.watches[k1].path, s.watches[k2].path, path_base(), k1.0, k2.0, '/');
    lemma_prefixes_differ(s.watches[k1].name, s.watches[k2].name, name_base(), k1.0, k2.0, '.');
}

/// Before the first request for a namespace, a change of it is announced
/// nowhere; that request then leaves the watched namespaces as they are and,
/// while the counter has room, comes back with a derived address at which an
/// endpoint is to be made.
pub proof fn lemma_first_watch<H>(s: WatchesView<H>, k: WatchKey, caller: Seq<char>, key: Seq<char>)
    requires
        !s.watches.contains_key(k),
    ensures
        !announced(s, crate::classify::change_record(k.0, k.1, key, k.2)),
        prepare_step(s, k, caller).0.watches == s.watches,
        s.next_id < u64::MAX - 1 ==> (prepare_step(s, k, caller).1 matches Ok(PreparedView::Create(p, n))
            && address_derived(k, p, n, prepare_step(s, k, caller).0.next_id)),
{
    lemma_created_address_derived(s, k, caller);
}

/// Two callers watch the same new namespace one after the other: the first
/// request makes the endpoint at the derived address with handle `h`; the second
/// comes back ready at that address, keeps `h`, and from then on a change of
/// the namespace is announced on that endpoint, which both callers watch.
pub proof fn lemma_two_callers_share<H>(
    s: WatchesView<H>,
    k: WatchKey,
    a: Seq<char>,
    b: Seq<char>,
    h: H,
    key: Seq<char>,
)
    requires
        !s.watches.contains_key(k),
        s.next_id < u64::MAX - 1,
    ensures
        ({
            let (s1, r1) = prepare_step(s, k, a);
            let (p, n) = match r1 {
                Ok(PreparedView::Create(p, n)) => (p, n),
                _ => (seq![], seq![]),
            };
            let (s2, used, surplus) = commit_step(s1, k, a, (p, n), h);
            let (s3, r3) = prepare_step(s2, k, b);
            &&& r1 is Ok && r1->Ok_0 is Create
            &&& address_derived(k, p, n, s1.next_id)
            &&& used == (p, n) && !surplus
            &&& r3 == Ok::<PreparedView, NamingError>(PreparedView::Ready(p, n))
            &&& s3.watches[k] == (WatchView { path: p, name: n, callers: set![a, b], handle: h })
            &&& announced(s3, crate::classify::change_record(k.0, k.1, key, k.2))
        }),
{
    lemma_created_address_derived(s, k, a);
    assert(set![a].insert(b) =~= set![a, b]);
}

} // verus!

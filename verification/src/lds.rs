//! Listener updates (LDS): each listener name has its versions, the newest
//! last. An update or a removal puts the older versions into a draining
//! state; after the drain timeout the draining versions are closed.

use vstd::prelude::*;
use crate::clock::instant_now;
use crate::keyed::{distinct_keys, find_key, keyed_map, lemma_keyed_at, lemma_keyed_empty, lemma_keyed_push, lemma_keyed_remove, lemma_keyed_set};

verus! {

broadcast use vstd::seq_lib::group_seq_properties;

/// The drain timeout of a manager: 600 s, in nanoseconds.
pub const LDS_DRAIN_TIMEOUT: u128 = 600_000_000_000;

/// The state of a listener version.
#[derive(Debug, Clone, Copy, PartialEq)]
pub enum ListenerState {
    Active,
    Draining { started_at: std::time::Instant },
}

/// A version of a listener: the handle that runs it, its state, and when
/// it was created.
#[derive(Debug)]
pub struct LdsListenerInfo<H> {
    pub handle: H,
    pub state: ListenerState,
    pub created_at: std::time::Instant,
}

impl<H> LdsListenerInfo<H> {
    /// A new, active version, created now.
    pub fn new(handle: H) -> (r: Self)
        ensures
            r.handle == handle,
            r.state == ListenerState::Active,
    {
        LdsListenerInfo { handle, state: ListenerState::Active, created_at: instant_now() }
    }

    /// Puts the version into the draining state, from now on.
    pub fn start_draining(&mut self)
        ensures
            final(self).handle == old(self).handle,
            final(self).created_at == old(self).created_at,
            final(self).state is Draining,
    {
        self.state = ListenerState::Draining { started_at: instant_now() };
    }

    /// Whether the version drains.
    pub fn is_draining(&self) -> (r: bool)
        ensures
            r == self.state is Draining,
    {
        match self.state {
            ListenerState::Draining { .. } => true,
            ListenerState::Active => false,
        }
    }
}

/// The versions after all of them were put into draining: each keeps its
/// handle and creation time, and one that drained already keeps its state.
pub open spec fn all_draining<H>(before: Seq<LdsListenerInfo<H>>, after: Seq<LdsListenerInfo<H>>) -> bool {
    &&& after.len() == before.len()
    &&& forall|i: int| 0 <= i < after.len() ==> {
        &&& (#[trigger] after[i]).handle == before[i].handle
        &&& after[i].created_at == before[i].created_at
        &&& after[i].state is Draining
        &&& before[i].state is Draining ==> after[i].state == before[i].state
    }
}

/// Whether a version is active.
pub open spec fn is_active<H>(v: LdsListenerInfo<H>) -> bool {
    v.state is Active
}

/// The handle of a draining version.
pub open spec fn draining_handle<H>(v: LdsListenerInfo<H>) -> Option<H> {
    if v.state is Draining {
        Some(v.handle)
    } else {
        None
    }
}

/// The listeners by name, each with its versions, the newest last.
pub struct LdsManager<H> {
    listeners: Vec<(String, Vec<LdsListenerInfo<H>>)>,
    drain_timeout: u128,
}

impl<H> LdsManager<H> {
    #[verifier::type_invariant]
    spec fn well_formed(self) -> bool {
        &&& distinct_keys(self.listeners@)
        &&& forall|i: int| 0 <= i < self.listeners@.len() ==> (#[trigger] self.listeners@[i]).1@.len() > 0
    }

    /// The versions of each listener, the newest last.
    pub closed spec fn view(&self) -> Map<Seq<char>, Seq<LdsListenerInfo<H>>> {
        keyed_map(self.listeners@).map_values(|v: Vec<LdsListenerInfo<H>>| v@)
    }

    /// How long versions drain before they are closed, in nanoseconds.
    pub closed spec fn spec_drain_timeout(&self) -> u128 {
        self.drain_timeout
    }

    /// A manager without listeners, with a drain timeout of 600 s.
    pub fn new() -> (r: Self)
        ensures
            r@ == Map::<Seq<char>, Seq<LdsListenerInfo<H>>>::empty(),
            r.spec_drain_timeout() == LDS_DRAIN_TIMEOUT,
    {
        let r = LdsManager { listeners: Vec::new(), drain_timeout: LDS_DRAIN_TIMEOUT };
        proof {
            lemma_keyed_empty(r.listeners@);
        }
        assert(r@ =~= Map::<Seq<char>, Seq<LdsListenerInfo<H>>>::empty());
        r
    }

    /// How long versions drain before they are closed, in nanoseconds.
    pub fn drain_timeout(&self) -> (r: u128)
        ensures
            r == self.spec_drain_timeout(),
    {
        self.drain_timeout
    }

    fn mark_draining(versions: &mut Vec<LdsListenerInfo<H>>)
        ensures
            all_draining(old(versions)@, final(versions)@),
    {
        let mut j: usize = 0;
        while j < versions.len()
            invariant
                j <= versions@.len(),
                versions@.len() == old(versions)@.len(),
                forall|t: int| 0 <= t < j ==> {
                    &&& (#[trigger] versions@[t]).handle == old(versions)@[t].handle
                    &&& versions@[t].created_at == old(versions)@[t].created_at
                    &&& versions@[t].state is Draining
                    &&& old(versions)@[t].state is Draining ==> versions@[t].state == old(versions)@[t].state
                },
                forall|t: int| j <= t < versions@.len() ==> #[trigger] versions@[t] == old(versions)@[t],
            decreases versions@.len() - j,
        {
            let mut info = versions.remove(j);
            if !info.is_draining() {
                info.start_draining();
            }
            versions.insert(j, info);
            j += 1;
        }
    }

    /// Installs a new version of the listener `name`, active, after putting
    /// the older versions into draining. Returns whether there were older
    /// versions: their drain timeout then starts.
    pub fn handle_lds_update(&mut self, name: String, handle: H) -> (r: bool)
        ensures
            r == old(self)@.contains_key(name@),
            final(self).spec_drain_timeout() == old(self).spec_drain_timeout(),
            final(self)@ == old(self)@.insert(name@, final(self)@[name@]),
            ({
                let before = if r {
                    old(self)@[name@]
                } else {
                    Seq::empty()
                };
                let after = final(self)@[name@];
                &&& after.len() == before.len() + 1
                &&& all_draining(before, after.drop_last())
                &&& after.last().handle == handle
                &&& after.last().state == ListenerState::Active
            }),
    {
        proof {
            use_type_invariant(&*self);
        }
        let info = LdsListenerInfo::new(handle);
        let ghost old_map = self@;
        match find_key(&self.listeners, &name) {
            Some(i) => {
                let mut storage = Vec::new();
                std::mem::swap(&mut storage, &mut self.listeners);
                let ghost before = storage@;
                let (key, mut versions) = storage.remove(i);
                let ghost old_versions = versions@;
                Self::mark_draining(&mut versions);
                let ghost drained = versions@;
                versions.push(info);
                assert(versions@.drop_last() =~= drained);
                let entry = (key, versions);
                let ghost ev = entry;
                storage.insert(i, entry);
                assert(storage@ =~= before.update(i as int, ev));
                proof {
                    lemma_keyed_set(before, i as int, ev);
                    lemma_keyed_at(before, i as int);
                }
                self.listeners = storage;
                assert(self@ =~= old_map.insert(name@, ev.1@));
                true
            },
            None => {
                let mut versions = Vec::new();
                versions.push(info);
                let entry = (name, versions);
                let ghost ev = entry;
                let ghost before = self.listeners@;
                proof {
                    lemma_keyed_push(before, ev);
                }
                let mut storage = Vec::new();
                std::mem::swap(&mut storage, &mut self.listeners);
                storage.push(entry);
                self.listeners = storage;
                assert(self@ =~= old_map.insert(ev.0@, ev.1@));
                assert(ev.1@.drop_last() =~= Seq::<LdsListenerInfo<H>>::empty());
                false
            },
        }
    }

    /// Puts all versions of the listener `name` into draining. Returns
    /// whether the listener exists: its removal timeout then starts.
    pub fn remove_listener(&mut self, name: &str) -> (r: bool)
        ensures
            r == old(self)@.contains_key(name@),
            final(self).spec_drain_timeout() == old(self).spec_drain_timeout(),
            r ==> final(self)@ == old(self)@.insert(name@, final(self)@[name@]) && all_draining(
                old(self)@[name@],
                final(self)@[name@],
            ),
            !r ==> final(self)@ == old(self)@,
    {
        proof {
            use_type_invariant(&*self);
        }
        let key = name.to_owned();
        let ghost old_map = self@;
        match find_key(&self.listeners, &key) {
            Some(i) => {
                let mut storage = Vec::new();
                std::mem::swap(&mut storage, &mut self.listeners);
                let ghost before = storage@;
                let (k, mut versions) = storage.remove(i);
                Self::mark_draining(&mut versions);
                let entry = (k, versions);
                let ghost ev = entry;
                storage.insert(i, entry);
                assert(storage@ =~= before.update(i as int, ev));
                proof {
                    lemma_keyed_set(before, i as int, ev);
                    lemma_keyed_at(before, i as int);
                }
                self.listeners = storage;
                assert(self@ =~= old_map.insert(name@, ev.1@));
                true
            },
            None => false,
        }
    }

    /// The drain timeout of the older versions of `name` ran out: the
    /// draining versions leave, and their handles are handed back to be
    /// closed; a listener left without versions leaves.
    pub fn close_draining_versions(&mut self, name: &str) -> (r: Vec<H>)
        ensures
            final(self).spec_drain_timeout() == old(self).spec_drain_timeout(),
            !old(self)@.contains_key(name@) ==> r@.len() == 0 && final(self)@ == old(self)@,
            old(self)@.contains_key(name@) ==> {
                let kept = old(self)@[name@].filter(|v: LdsListenerInfo<H>| is_active(v));
                &&& r@ == old(self)@[name@].filter_map(|v: LdsListenerInfo<H>| draining_handle(v))
                &&& kept.len() == 0 ==> final(self)@ == old(self)@.remove(name@)
                &&& kept.len() > 0 ==> final(self)@ == old(self)@.insert(name@, kept)
            },
    {
        proof {
            use_type_invariant(&*self);
        }
        let key = name.to_owned();
        let ghost old_map = self@;
        match find_key(&self.listeners, &key) {
            Some(i) => {
                let mut storage = Vec::new();
                std::mem::swap(&mut storage, &mut self.listeners);
                let ghost before = storage@;
                proof {
                    lemma_keyed_at(before, i as int);
                }
                let (k, mut versions) = storage.remove(i);
                let ghost all = versions@;
                assert(all.len() == versions.len());
                let mut kept: Vec<LdsListenerInfo<H>> = Vec::new();
                let mut closed: Vec<H> = Vec::new();
                let mut n: usize = 0;
                while versions.len() > 0
                    invariant
                        n + versions@.len() == all.len(),
                        all.len() <= usize::MAX,
                        versions@ == all.subrange(n as int, all.len() as int),
                        kept@ == all.subrange(0, n as int).filter(|v: LdsListenerInfo<H>| is_active(v)),
                        closed@ == all.subrange(0, n as int).filter_map(|v: LdsListenerInfo<H>| draining_handle(v)),
                    decreases versions@.len(),
                {
                    let v = versions.remove(0);
                    let ghost prefix = all.subrange(0, n as int);
                    assert(all.subrange(0, n + 1) =~= prefix.push(v));
                    proof {
                        prefix.lemma_filter_push(v, |v: LdsListenerInfo<H>| is_active(v));
                        assert(prefix.push(v).drop_last() =~= prefix);
                    }
                    if v.is_draining() {
                        closed.push(v.handle);
                    } else {
                        kept.push(v);
                    }
                    n += 1;
                    assert(versions@ =~= all.subrange(n as int, all.len() as int));
                }
                assert(all.subrange(0, n as int) =~= all);
                if kept.len() == 0 {
                    proof {
                        lemma_keyed_remove(before, i as int);
                    }
                    self.listeners = storage;
                    assert(self@ =~= old_map.remove(name@));
                } else {
                    let entry = (k, kept);
                    let ghost ev = entry;
                    storage.insert(i, entry);
                    assert(storage@ =~= before.update(i as int, ev));
                    proof {
                        lemma_keyed_set(before, i as int, ev);
                    }
                    self.listeners = storage;
                    assert(self@ =~= old_map.insert(name@, ev.1@));
                }
                closed
            },
            None => Vec::new(),
        }
    }

    /// The removal timeout of `name` ran out: the listener leaves, and the
    /// handles of all its versions are handed back to be closed.
    pub fn close_removed_listener(&mut self, name: &str) -> (r: Vec<H>)
        ensures
            final(self).spec_drain_timeout() == old(self).spec_drain_timeout(),
            final(self)@ == old(self)@.remove(name@),
            old(self)@.contains_key(name@) ==> r@ == old(self)@[name@].map_values(|v: LdsListenerInfo<H>| v.handle),
            !old(self)@.contains_key(name@) ==> r@.len() == 0,
    {
        proof {
            use_type_invariant(&*self);
        }
        let key = name.to_owned();
        let ghost old_map = self@;
        match find_key(&self.listeners, &key) {
            Some(i) => {
                let mut storage = Vec::new();
                std::mem::swap(&mut storage, &mut self.listeners);
                let ghost before = storage@;
                proof {
                    lemma_keyed_at(before, i as int);
                    lemma_keyed_remove(before, i as int);
                }
                let (_, mut versions) = storage.remove(i);
                self.listeners = storage;
                assert(self@ =~= old_map.remove(name@));
                let ghost all = versions@;
                assert(all.len() == versions.len());
                let mut handles: Vec<H> = Vec::new();
                let mut n: usize = 0;
                while versions.len() > 0
                    invariant
                        n + versions@.len() == all.len(),
                        all.len() <= usize::MAX,
                        versions@ == all.subrange(n as int, all.len() as int),
                        handles@ == all.subrange(0, n as int).map_values(|v: LdsListenerInfo<H>| v.handle),
                    decreases versions@.len(),
                {
                    let v = versions.remove(0);
                    assert(all.subrange(0, n + 1).map_values(|v: LdsListenerInfo<H>| v.handle)
                        =~= all.subrange(0, n as int).map_values(|v: LdsListenerInfo<H>| v.handle).push(v.handle));
                    handles.push(v.handle);
                    n += 1;
                    assert(versions@ =~= all.subrange(n as int, all.len() as int));
                }
                assert(all.subrange(0, n as int) =~= all);
                handles
            },
            None => {
                assert(self@ =~= old_map.remove(name@));
                Vec::new()
            },
        }
    }

    /// The state of the newest version of `name`.
    pub fn get_listener_info(&self, name: &str) -> (r: Option<ListenerState>)
        ensures
            self@.contains_key(name@) ==> r == Some(self@[name@].last().state),
            !self@.contains_key(name@) ==> r is None,
    {
        proof {
            use_type_invariant(self);
        }
        let key = name.to_owned();
        match find_key(&self.listeners, &key) {
            Some(i) => {
                let versions = &self.listeners[i].1;
                assert(versions@.len() > 0);
                Some(versions[versions.len() - 1].state)
            },
            None => None,
        }
    }

    /// Every listener with the states of its versions, the newest last.
    pub fn list_listeners(&self) -> (r: Vec<(String, Vec<ListenerState>)>)
        ensures
            r@.len() == self@.dom().len(),
            forall|i: int| 0 <= i < r@.len() ==> self@.contains_key((#[trigger] r@[i]).0@) && r@[i].1@
                == self@[r@[i].0@].map_values(|v: LdsListenerInfo<H>| v.state),
            forall|k: Seq<char>| self@.contains_key(k) ==> exists|i: int| 0 <= i < r@.len() && #[trigger] r@[i].0@ == k,
    {
        proof {
            use_type_invariant(self);
            crate::keyed::lemma_keyed_len(self.listeners@);
            assert(self@.dom() =~= keyed_map(self.listeners@).dom());
        }
        let mut out: Vec<(String, Vec<ListenerState>)> = Vec::new();
        let mut i: usize = 0;
        while i < self.listeners.len()
            invariant
                i <= self.listeners@.len(),
                distinct_keys(self.listeners@),
                out@.len() == i,
                forall|t: int| 0 <= t < i ==> (#[trigger] out@[t]).0@ == self.listeners@[t].0@ && out@[t].1@
                    == self.listeners@[t].1@.map_values(|v: LdsListenerInfo<H>| v.state),
            decreases self.listeners@.len() - i,
        {
            let versions = &self.listeners[i].1;
            let mut states: Vec<ListenerState> = Vec::new();
            let mut j: usize = 0;
            while j < versions.len()
                invariant
                    j <= versions@.len(),
                    states@ == versions@.subrange(0, j as int).map_values(|v: LdsListenerInfo<H>| v.state),
                decreases versions@.len() - j,
            {
                assert(versions@.subrange(0, j + 1).map_values(|v: LdsListenerInfo<H>| v.state)
                    =~= versions@.subrange(0, j as int).map_values(|v: LdsListenerInfo<H>| v.state).push(versions@[j as int].state));
                states.push(versions[j].state);
                j += 1;
            }
            assert(versions@.subrange(0, j as int) =~= versions@);
            out.push((self.listeners[i].0.clone(), states));
            i += 1;
        }
        proof {
            assert forall|t: int| 0 <= t < out@.len() implies self@.contains_key((#[trigger] out@[t]).0@) && out@[t].1@
                == self@[out@[t].0@].map_values(|v: LdsListenerInfo<H>| v.state) by {
                lemma_keyed_at(self.listeners@, t);
            }
            assert forall|k: Seq<char>| self@.contains_key(k) implies exists|t: int| 0 <= t < out@.len() && #[trigger] out@[t].0@ == k by {
                let t = choose|t: int| 0 <= t < self.listeners@.len() && #[trigger] self.listeners@[t].0@ == k;
                assert(out@[t].0@ == k);
            }
        }
        out
    }
}

impl<H> Default for LdsManager<H> {
    fn default() -> (r: Self)
        ensures
            r@ == Map::<Seq<char>, Seq<LdsListenerInfo<H>>>::empty(),
            r.spec_drain_timeout() == LDS_DRAIN_TIMEOUT,
    {
        Self::new()
    }
}

/// After an update, exactly one version of the listener is active: the
/// newest, which holds the new handle; all older versions drain.
pub proof fn law_update_leaves_one_active<H>(before: Seq<LdsListenerInfo<H>>, after: Seq<LdsListenerInfo<H>>)
    requires
        after.len() == before.len() + 1,
        all_draining(before, after.drop_last()),
        after.last().state == ListenerState::Active,
    ensures
        forall|i: int| 0 <= i < after.len() ==> (is_active(#[trigger] after[i]) <==> i == after.len() - 1),
{
    assert forall|i: int| 0 <= i < after.len() implies (is_active(#[trigger] after[i]) <==> i == after.len() - 1) by {
        if i < after.len() - 1 {
            assert(after.drop_last()[i] == after[i]);
        }
    }
}

} // verus!

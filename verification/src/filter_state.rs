//! Filter state: dynamic per-request metadata.
//!
//! Filters store key/value entries that can be used for routing decisions,
//! logging, or propagation to upstream connections. An entry may be marked
//! read-only, which forbids any later change of it, and carries how it is
//! shared with upstream connections.

use vstd::prelude::*;
use crate::keyed::{distinct_keys, find_key, keyed_map, lemma_keyed_at, lemma_keyed_empty, lemma_keyed_len, lemma_keyed_push, lemma_keyed_set};

verus! {

/// Defines how filter state is shared with upstream connections.
#[derive(Debug, Clone, Copy, PartialEq, Eq, Structural, Hash)]
pub enum SharedWithUpstream {
    /// Not shared with upstream (local to this connection only)
    Unshared,
    /// Shared with immediate upstream connection
    Once,
    /// Shared with all upstream connections in the chain
    Transitive,
}

impl Default for SharedWithUpstream {
    fn default() -> (r: Self)
        ensures
            r == SharedWithUpstream::Unshared,
    {
        SharedWithUpstream::Unshared
    }
}

/// Errors that can occur during filter state operations.
#[derive(Debug, Clone, PartialEq)]
pub enum FilterStateError {
    /// No entry has this key.
    KeyNotFound(String),
    /// The entry with this key is read-only and cannot be modified.
    ReadOnly(String),
    /// The storage could not be reached. The storage here has a single owner,
    /// so no operation of this module reports it.
    LockPoisoned,
    /// The value stored under this key is not valid.
    InvalidValue(String),
}

/// What an entry holds.
pub struct EntryView {
    pub value: Seq<char>,
    pub read_only: bool,
    pub shared_with_upstream: SharedWithUpstream,
}

/// A single filter state entry.
#[derive(Debug, Clone)]
struct FilterStateEntry {
    /// The stored value.
    value: String,
    /// Whether this entry is read-only (cannot be overwritten).
    read_only: bool,
    /// How this entry is shared with upstream.
    shared_with_upstream: SharedWithUpstream,
}

spec fn entry_view(e: FilterStateEntry) -> EntryView {
    EntryView { value: e.value@, read_only: e.read_only, shared_with_upstream: e.shared_with_upstream }
}

/// Whether an entry shared as `entry` is handed upstream when `mode` is asked
/// for: `Once` hands over the `Once` and `Transitive` entries, `Transitive`
/// only the `Transitive` ones, and `Unshared` none.
pub open spec fn is_shared_for(mode: SharedWithUpstream, entry: SharedWithUpstream) -> bool {
    match mode {
        SharedWithUpstream::Unshared => false,
        SharedWithUpstream::Once => entry == SharedWithUpstream::Once || entry == SharedWithUpstream::Transitive,
        SharedWithUpstream::Transitive => entry == SharedWithUpstream::Transitive,
    }
}

/// Whether setting `key` is refused: it holds a read-only entry.
pub open spec fn set_refused(m: Map<Seq<char>, EntryView>, key: Seq<char>) -> bool {
    m.contains_key(key) && m[key].read_only
}

/// The entries after setting `key`: unchanged when refused, else the key
/// holds the new entry.
pub open spec fn state_after_set(
    m: Map<Seq<char>, EntryView>,
    key: Seq<char>,
    value: Seq<char>,
    read_only: bool,
    shared_with_upstream: SharedWithUpstream,
) -> Map<Seq<char>, EntryView> {
    if set_refused(m, key) {
        m
    } else {
        m.insert(key, EntryView { value, read_only, shared_with_upstream })
    }
}

/// A value that was set can be read back with the metadata it was set
/// with, unless the key held a read-only entry.
pub proof fn law_get_after_set(
    m: Map<Seq<char>, EntryView>,
    key: Seq<char>,
    value: Seq<char>,
    read_only: bool,
    shared_with_upstream: SharedWithUpstream,
)
    requires
        !set_refused(m, key),
    ensures
        state_after_set(m, key, value, read_only, shared_with_upstream).contains_key(key),
        state_after_set(m, key, value, read_only, shared_with_upstream)[key] == (EntryView { value, read_only, shared_with_upstream }),
{
}

/// A read-only entry never changes: once set, every later set of its key
/// is refused and leaves the whole state as it was.
pub proof fn law_read_only_is_final(
    m: Map<Seq<char>, EntryView>,
    key: Seq<char>,
    value: Seq<char>,
    shared_with_upstream: SharedWithUpstream,
    other_value: Seq<char>,
    other_read_only: bool,
    other_shared: SharedWithUpstream,
)
    requires
        !set_refused(m, key),
    ensures
        ({
            let after = state_after_set(m, key, value, true, shared_with_upstream);
            &&& set_refused(after, key)
            &&& state_after_set(after, key, other_value, other_read_only, other_shared) == after
        }),
{
}

/// Setting a key leaves every other key's entry as it was.
pub proof fn law_set_keeps_other_keys(
    m: Map<Seq<char>, EntryView>,
    key: Seq<char>,
    value: Seq<char>,
    read_only: bool,
    shared_with_upstream: SharedWithUpstream,
    other: Seq<char>,
)
    requires
        other != key,
    ensures
        state_after_set(m, key, value, read_only, shared_with_upstream).contains_key(other) == m.contains_key(other),
        m.contains_key(other) ==> state_after_set(m, key, value, read_only, shared_with_upstream)[other] == m[other],
{
}

/// What is shared with every upstream in the chain is also shared with
/// the immediate upstream, and nothing is shared in the unshared mode.
pub proof fn law_sharing_modes_nest(entry: SharedWithUpstream)
    ensures
        is_shared_for(SharedWithUpstream::Transitive, entry) ==> is_shared_for(SharedWithUpstream::Once, entry),
        !is_shared_for(SharedWithUpstream::Unshared, entry),
{
}

/// Storage for per-request metadata entries, by key.
#[derive(Debug)]
pub struct FilterState {
    storage: Vec<(String, FilterStateEntry)>,
}

impl FilterState {
    #[verifier::type_invariant]
    spec fn keys_distinct(self) -> bool {
        distinct_keys(self.storage@)
    }

    /// The entries, by key.
    pub closed spec fn view(&self) -> Map<Seq<char>, EntryView> {
        keyed_map(self.storage@).map_values(|e: FilterStateEntry| entry_view(e))
    }

    /// Creates a new empty filter state.
    pub fn new() -> (r: Self)
        ensures
            r@ == Map::<Seq<char>, EntryView>::empty(),
    {
        let r = FilterState { storage: Vec::new() };
        proof {
            lemma_keyed_empty(r.storage@);
        }
        assert(r@ =~= Map::<Seq<char>, EntryView>::empty());
        r
    }

    /// Sets a filter state value.
    ///
    /// Fails with `ReadOnly` (and changes nothing) when the key already holds
    /// a read-only entry; otherwise the key now holds the given entry.
    pub fn set(&mut self, key: &str, value: &str, read_only: bool, shared_with_upstream: SharedWithUpstream) -> (r:
        Result<(), FilterStateError>)
        ensures
            set_refused(old(self)@, key@) ==> (r matches Err(FilterStateError::ReadOnly(k)) && k@ == key@),
            !set_refused(old(self)@, key@) ==> r is Ok,
            final(self)@ == state_after_set(old(self)@, key@, value@, read_only, shared_with_upstream),
            old(self)@.dom().finite(),
            final(self)@.len() == old(self)@.len() + (if !old(self)@.contains_key(key@) { 1int } else { 0int }),
    {
        proof {
            use_type_invariant(&*self);
            lemma_keyed_len(self.storage@);
            assert(self@.dom() =~= keyed_map(self.storage@).dom());
        }
        let key = key.to_owned();
        let entry = (key.clone(), FilterStateEntry { value: value.to_owned(), read_only, shared_with_upstream });
        let ghost before = self.storage@;
        match find_key(&self.storage, &key) {
            Some(i) => {
                if self.storage[i].1.read_only {
                    return Err(FilterStateError::ReadOnly(key));
                }
                proof {
                    lemma_keyed_set(before, i as int, entry);
                }
                let mut storage = Vec::new();
                std::mem::swap(&mut storage, &mut self.storage);
                storage.set(i, entry);
                self.storage = storage;
            },
            None => {
                proof {
                    lemma_keyed_push(before, entry);
                }
                let mut storage = Vec::new();
                std::mem::swap(&mut storage, &mut self.storage);
                storage.push(entry);
                self.storage = storage;
            },
        }
        assert(self@ =~= old(self)@.insert(key@, EntryView { value: value@, read_only, shared_with_upstream }));
        Ok(())
    }

    /// Gets a filter state value; fails with `KeyNotFound` when the key holds no entry.
    pub fn get(&self, key: &str) -> (r: Result<String, FilterStateError>)
        ensures
            self@.contains_key(key@) ==> (r matches Ok(v) && v@ == self@[key@].value),
            !self@.contains_key(key@) ==> (r matches Err(FilterStateError::KeyNotFound(k)) && k@ == key@),
    {
        proof {
            use_type_invariant(self);
        }
        let key = key.to_owned();
        match find_key(&self.storage, &key) {
            Some(i) => Ok(self.storage[i].1.value.clone()),
            None => Err(FilterStateError::KeyNotFound(key)),
        }
    }

    /// Checks whether a key holds an entry.
    pub fn contains_key(&self, key: &str) -> (r: bool)
        ensures
            r == self@.contains_key(key@),
    {
        proof {
            use_type_invariant(self);
        }
        let key = key.to_owned();
        find_key(&self.storage, &key).is_some()
    }

    /// Gets a value with its metadata: (value, read_only, shared_with_upstream).
    pub fn get_with_metadata(&self, key: &str) -> (r: Result<(String, bool, SharedWithUpstream), FilterStateError>)
        ensures
            self@.contains_key(key@) ==> (r matches Ok(t) && t.0@ == self@[key@].value && t.1
                == self@[key@].read_only && t.2 == self@[key@].shared_with_upstream),
            !self@.contains_key(key@) ==> (r matches Err(FilterStateError::KeyNotFound(k)) && k@ == key@),
    {
        proof {
            use_type_invariant(self);
        }
        let key = key.to_owned();
        match find_key(&self.storage, &key) {
            Some(i) => {
                let e = &self.storage[i].1;
                Ok((e.value.clone(), e.read_only, e.shared_with_upstream))
            },
            None => Err(FilterStateError::KeyNotFound(key)),
        }
    }

    /// Gets the keys and values that are shared upstream in the given mode
    /// (see `is_shared_for`), in storage order, with distinct keys.
    pub fn get_upstream_shared(&self, mode: SharedWithUpstream) -> (r: Vec<(String, String)>)
        ensures
            distinct_keys(r@),
            forall|k: Seq<char>|
                #[trigger] keyed_map(r@).contains_key(k) <==> self@.contains_key(k) && is_shared_for(
                    mode,
                    self@[k].shared_with_upstream,
                ),
            forall|k: Seq<char>| #[trigger] keyed_map(r@).contains_key(k) ==> keyed_map(r@)[k]@ == self@[k].value,
    {
        proof {
            use_type_invariant(self);
        }
        let ghost s = self.storage@;
        let mut r: Vec<(String, String)> = Vec::new();
        let mut i: usize = 0;
        while i < self.storage.len()
            invariant
                i <= s.len(),
                s == self.storage@,
                distinct_keys(s),
                distinct_keys(r@),
                forall|t: int|
                    0 <= t < r@.len() ==> exists|u: int| 0 <= u < i && #[trigger] s[u].0@ == (#[trigger] r@[t]).0@,
                forall|u: int|
                    0 <= u < i && is_shared_for(mode, s[u].1.shared_with_upstream) ==> #[trigger] keyed_map(
                        r@,
                    ).contains_key(s[u].0@),
                forall|k: Seq<char>| #[trigger]
                    keyed_map(r@).contains_key(k) ==> keyed_map(s).contains_key(k) && is_shared_for(
                        mode,
                        keyed_map(s)[k].shared_with_upstream,
                    ) && keyed_map(r@)[k]@ == keyed_map(s)[k].value@,
            decreases s.len() - i,
        {
            let e = &self.storage[i];
            proof {
                lemma_keyed_at(s, i as int);
            }
            if is_shared(mode, e.1.shared_with_upstream) {
                let p = (e.0.clone(), e.1.value.clone());
                proof {
                    if keyed_map(r@).contains_key(p.0@) {
                        let t = choose|t: int| 0 <= t < r@.len() && #[trigger] r@[t].0@ == p.0@;
                        let u = choose|u: int| 0 <= u < i && #[trigger] s[u].0@ == (#[trigger] r@[t]).0@;
                        assert(s[u].0@ != s[i as int].0@);
                    }
                    lemma_keyed_push(r@, p);
                }
                let ghost old_r = r@;
                r.push(p);
                proof {
                    assert forall|t: int| 0 <= t < r@.len() implies exists|u: int|
                        0 <= u < i + 1 && #[trigger] s[u].0@ == (#[trigger] r@[t]).0@ by {
                        if t < old_r.len() {
                            assert(r@[t] == old_r[t]);
                        } else {
                            assert(s[i as int].0@ == r@[t].0@);
                        }
                    }
                }
            }
            i += 1;
        }
        proof {
            assert forall|k: Seq<char>|
                self@.contains_key(k) && is_shared_for(mode, self@[k].shared_with_upstream) implies #[trigger] keyed_map(
                r@,
            ).contains_key(k) by {
                let u = choose|u: int| 0 <= u < s.len() && #[trigger] s[u].0@ == k;
                lemma_keyed_at(s, u);
            }
        }
        r
    }

    /// Clears all entries.
    pub fn clear(&mut self)
        ensures
            final(self)@ == Map::<Seq<char>, EntryView>::empty(),
    {
        self.storage = Vec::new();
        proof {
            lemma_keyed_empty(self.storage@);
        }
        assert(self@ =~= Map::<Seq<char>, EntryView>::empty());
    }

    /// Returns the number of entries.
    pub fn len(&self) -> (r: usize)
        ensures
            self@.dom().finite(),
            r == self@.len(),
    {
        proof {
            use_type_invariant(self);
            lemma_keyed_len(self.storage@);
            assert(self@.dom() =~= keyed_map(self.storage@).dom());
        }
        self.storage.len()
    }

    /// Returns true if there are no entries.
    pub fn is_empty(&self) -> (r: bool)
        ensures
            r == (self@.len() == 0),
    {
        self.len() == 0
    }
}

/// Whether an entry shared as `entry` is handed upstream when `mode` is asked for.
fn is_shared(mode: SharedWithUpstream, entry: SharedWithUpstream) -> (r: bool)
    ensures
        r == is_shared_for(mode, entry),
{
    match mode {
        SharedWithUpstream::Unshared => false,
        SharedWithUpstream::Once => entry == SharedWithUpstream::Once || entry == SharedWithUpstream::Transitive,
        SharedWithUpstream::Transitive => entry == SharedWithUpstream::Transitive,
    }
}

impl Default for FilterState {
    fn default() -> (r: Self)
        ensures
            r@ == Map::<Seq<char>, EntryView>::empty(),
    {
        Self::new()
    }
}

} // verus!

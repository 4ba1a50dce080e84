//! A header map: header names (normalized, as the `http` crate keeps them)
//! mapped to the non-empty list of their values, in the order they were added.

use vstd::prelude::*;
use crate::keyed::{distinct_keys, find_key, keyed_map, lemma_keyed_at, lemma_keyed_empty, lemma_keyed_push,
    lemma_keyed_remove, lemma_keyed_set};

verus! {

/// What `http::HeaderName::from_bytes` makes of some bytes: the normalized
/// (lowercase) name, or nothing when the bytes are not a valid header name.
pub uninterp spec fn header_name_from_bytes(b: Seq<u8>) -> Option<Seq<char>>;

/// Calls `http::HeaderName::from_bytes` and returns the name's text. Its
/// result depends on the bytes alone and is named `header_name_from_bytes`;
/// the validation table and the normalization are not restated, only that
/// its table refuses `:` and maps no byte to `:`, so that a name holding a
/// `:` is refused and no name it gives holds one.
#[verifier::external_body]
pub(crate) fn parse_header_name(b: &[u8]) -> (r: Option<String>)
    ensures
        match r {
            Some(n) => header_name_from_bytes(b@) == Some(n@),
            None => header_name_from_bytes(b@) is None,
        },
        b@.contains(58u8) ==> r is None,
        r matches Some(n) ==> !n@.contains(':'),
{
    http::HeaderName::from_bytes(b).ok().map(|n| n.as_str().to_owned())
}

/// A byte that may appear in a header value (`http::HeaderValue` accepts
/// visible ASCII, space, tab and bytes from 128 up, and refuses DEL).
pub open spec fn is_header_value_byte(b: u8) -> bool {
    (b >= 32 && b != 127) || b == 9
}

/// The bytes form a valid header value.
pub open spec fn is_header_value(v: Seq<u8>) -> bool {
    forall|i: int| 0 <= i < v.len() ==> is_header_value_byte(#[trigger] v[i])
}

/// Checks bytes as `http::HeaderValue::from_bytes` does.
pub fn valid_header_value(v: &[u8]) -> (r: bool)
    ensures
        r == is_header_value(v@),
{
    let mut i: usize = 0;
    while i < v.len()
        invariant
            i <= v@.len(),
            forall|t: int| 0 <= t < i ==> is_header_value_byte(#[trigger] v@[t]),
        decreases v@.len() - i,
    {
        let b = v[i];
        if !((b >= 32 && b != 127) || b == 9) {
            assert(!is_header_value_byte(v@[i as int]));
            return false;
        }
        i += 1;
    }
    true
}

/// The values of a header, as byte sequences.
pub open spec fn values_view(vs: Vec<Vec<u8>>) -> Seq<Seq<u8>> {
    vs@.map_values(|x: Vec<u8>| x@)
}

/// Headers: names mapped to their values.
#[derive(Debug)]
pub struct HeaderMap {
    entries: Vec<(String, Vec<Vec<u8>>)>,
}

/// The view of a list of header entries.
pub open spec fn entries_view(s: Seq<(String, Vec<Vec<u8>>)>) -> Map<Seq<char>, Seq<Seq<u8>>> {
    keyed_map(s).map_values(|vs: Vec<Vec<u8>>| values_view(vs))
}

impl HeaderMap {
    #[verifier::type_invariant]
    spec fn well_formed(self) -> bool {
        &&& distinct_keys(self.entries@)
        &&& forall|i: int| 0 <= i < self.entries@.len() ==> (#[trigger] self.entries@[i]).1@.len() > 0
    }

    /// Each header name with its values, in the order they were added.
    pub closed spec fn view(&self) -> Map<Seq<char>, Seq<Seq<u8>>> {
        entries_view(self.entries@)
    }

    /// An empty header map.
    pub fn new() -> (r: Self)
        ensures
            r@ == Map::<Seq<char>, Seq<Seq<u8>>>::empty(),
    {
        let r = HeaderMap { entries: Vec::new() };
        proof {
            lemma_keyed_empty(r.entries@);
        }
        assert(r@ =~= Map::<Seq<char>, Seq<Seq<u8>>>::empty());
        r
    }

    /// Whether the header is present.
    pub fn contains_key(&self, name: &str) -> (r: bool)
        ensures
            r == self@.contains_key(name@),
    {
        proof {
            use_type_invariant(self);
        }
        let key = name.to_owned();
        find_key(&self.entries, &key).is_some()
    }

    /// The first value of the header, if present.
    pub fn get(&self, name: &str) -> (r: Option<&Vec<u8>>)
        ensures
            match r {
                Some(v) => self@.contains_key(name@) && v@ == self@[name@][0],
                None => !self@.contains_key(name@),
            },
    {
        proof {
            use_type_invariant(self);
        }
        let key = name.to_owned();
        match find_key(&self.entries, &key) {
            Some(i) => {
                assert(self.entries@[i as int].1@.len() > 0);
                Some(&self.entries[i].1[0])
            },
            None => None,
        }
    }

    /// The number of distinct header names.
    pub fn keys_len(&self) -> (r: usize)
        ensures
            r == self@.dom().len(),
    {
        proof {
            use_type_invariant(self);
            crate::keyed::lemma_keyed_len(self.entries@);
            assert(self@.dom() =~= keyed_map(self.entries@).dom());
        }
        self.entries.len()
    }

    /// Adds a value after the values the header already has (or adds the header).
    pub fn append(&mut self, name: &str, value: Vec<u8>)
        ensures
            final(self)@ == old(self)@.insert(
                name@,
                if old(self)@.contains_key(name@) {
                    old(self)@[name@].push(value@)
                } else {
                    seq![value@]
                },
            ),
    {
        proof {
            use_type_invariant(&*self);
        }
        let key = name.to_owned();
        let ghost before = self.entries@;
        let mut entries = Vec::new();
        std::mem::swap(&mut entries, &mut self.entries);
        match find_key(&entries, &key) {
            Some(i) => {
                let (_, mut vs) = entries.remove(i);
                assert(vs@ == before[i as int].1@);
                vs.push(value);
                let entry = (key, vs);
                proof {
                    lemma_keyed_set(before, i as int, entry);
                    assert(values_view(entry.1) =~= values_view(before[i as int].1).push(value@));
                }
                entries.insert(i, entry);
                assert(entries@ =~= before.update(i as int, entry));
            },
            None => {
                let mut vs: Vec<Vec<u8>> = Vec::new();
                vs.push(value);
                let entry = (key, vs);
                proof {
                    lemma_keyed_push(before, entry);
                    assert(values_view(entry.1) =~= seq![value@]);
                }
                entries.push(entry);
            },
        }
        self.entries = entries;
        proof {
            assert forall|i: int| 0 <= i < self.entries@.len() implies (#[trigger] self.entries@[i]).1@.len() > 0 by {
                if i < before.len() && self.entries@[i] != before[i] {
                }
            }
        }
        assert(self@ =~= old(self)@.insert(
            name@,
            if old(self)@.contains_key(name@) {
                old(self)@[name@].push(value@)
            } else {
                seq![value@]
            },
        ));
    }

    /// Replaces all values of the header with this one (or adds the header).
    pub fn insert(&mut self, name: &str, value: Vec<u8>)
        ensures
            final(self)@ == old(self)@.insert(name@, seq![value@]),
    {
        proof {
            use_type_invariant(&*self);
        }
        let key = name.to_owned();
        let ghost before = self.entries@;
        let mut entries = Vec::new();
        std::mem::swap(&mut entries, &mut self.entries);
        let mut vs: Vec<Vec<u8>> = Vec::new();
        vs.push(value);
        let entry = (key.clone(), vs);
        assert(values_view(entry.1) =~= seq![value@]);
        match find_key(&entries, &key) {
            Some(i) => {
                proof {
                    lemma_keyed_set(before, i as int, entry);
                }
                entries.set(i, entry);
            },
            None => {
                proof {
                    lemma_keyed_push(before, entry);
                }
                entries.push(entry);
            },
        }
        self.entries = entries;
        assert(self@ =~= old(self)@.insert(name@, seq![value@]));
    }

    /// Removes the header with all its values.
    pub fn remove(&mut self, name: &str)
        ensures
            final(self)@ == old(self)@.remove(name@),
    {
        proof {
            use_type_invariant(&*self);
        }
        let key = name.to_owned();
        let ghost before = self.entries@;
        let mut entries = Vec::new();
        std::mem::swap(&mut entries, &mut self.entries);
        match find_key(&entries, &key) {
            Some(i) => {
                proof {
                    lemma_keyed_remove(before, i as int);
                }
                entries.remove(i);
                proof {
                    assert forall|t: int| 0 <= t < entries@.len() implies (#[trigger] entries@[t]).1@.len() > 0 by {
                        if t < i {
                            assert(entries@[t] == before[t]);
                        } else {
                            assert(entries@[t] == before[t + 1]);
                        }
                    }
                }
            },
            None => {},
        }
        self.entries = entries;
        assert(self@ =~= old(self)@.remove(name@));
    }
}

/// The name-value pairs of headers whose names come in the order `names`:
/// each name with each of its values, in order.
pub open spec fn pairs_of(names: Seq<Seq<char>>, m: Map<Seq<char>, Seq<Seq<u8>>>) -> Seq<(Seq<char>, Seq<u8>)>
    decreases names.len(),
{
    if names.len() == 0 {
        Seq::empty()
    } else {
        pairs_of(names.drop_last(), m) + m[names.last()].map_values(|v: Seq<u8>| (names.last(), v))
    }
}

/// The view of a name-value pair.
pub open spec fn pair_view(p: (String, Vec<u8>)) -> (Seq<char>, Seq<u8>) {
    (p.0@, p.1@)
}

impl HeaderMap {
    /// The header names, in the order in which they were first added.
    pub closed spec fn names(&self) -> Seq<Seq<char>> {
        self.entries@.map_values(|e: (String, Vec<Vec<u8>>)| e.0@)
    }

    /// Each header name with each of its values, in order.
    pub fn pairs(&self) -> (r: Vec<(String, Vec<u8>)>)
        ensures
            r@.map_values(|p: (String, Vec<u8>)| pair_view(p)) == pairs_of(self.names(), self@),
            forall|i: int, j: int| 0 <= i < j < self.names().len() ==> self.names()[i] != self.names()[j],
            forall|k: Seq<char>| self@.contains_key(k) <==> self.names().contains(k),
    {
        proof {
            use_type_invariant(self);
            assert forall|k: Seq<char>| self@.contains_key(k) <==> self.names().contains(k) by {
                if self@.contains_key(k) {
                    let i = choose|i: int| 0 <= i < self.entries@.len() && #[trigger] self.entries@[i].0@ == k;
                    assert(self.names()[i] == k);
                }
                if self.names().contains(k) {
                    let i = choose|i: int| 0 <= i < self.names().len() && self.names()[i] == k;
                    assert(self.entries@[i].0@ == k);
                }
            }
            assert forall|i: int, j: int| 0 <= i < j < self.names().len() implies self.names()[i] != self.names()[j] by {
                assert(self.entries@[i].0@ != self.entries@[j].0@);
            }
        }
        let mut out: Vec<(String, Vec<u8>)> = Vec::new();
        let mut i: usize = 0;
        while i < self.entries.len()
            invariant
                i <= self.entries@.len(),
                distinct_keys(self.entries@),
                out@.map_values(|p: (String, Vec<u8>)| pair_view(p)) =~= pairs_of(self.names().subrange(0, i as int), self@),
            decreases self.entries@.len() - i,
        {
            proof {
                lemma_keyed_at(self.entries@, i as int);
            }
            let name = &self.entries[i].0;
            let values = &self.entries[i].1;
            let ghost before = out@.map_values(|p: (String, Vec<u8>)| pair_view(p));
            let ghost vs = self@[name@];
            assert(vs == values_view(*values));
            let mut j: usize = 0;
            while j < values.len()
                invariant
                    j <= values@.len(),
                    vs == values_view(*values),
                    out@.map_values(|p: (String, Vec<u8>)| pair_view(p)) =~= before + vs.subrange(0, j as int).map_values(
                        |v: Seq<u8>| (name@, v),
                    ),
                decreases values@.len() - j,
            {
                let ghost prev = out@.map_values(|p: (String, Vec<u8>)| pair_view(p));
                let pair = (name.clone(), values[j].clone());
                out.push(pair);
                assert(out@.map_values(|p: (String, Vec<u8>)| pair_view(p)) =~= prev.push((name@, values@[j as int]@)));
                assert(vs.subrange(0, j + 1) =~= vs.subrange(0, j as int).push(vs[j as int]));
                j += 1;
            }
            assert(vs.subrange(0, j as int) =~= vs);
            let ghost ns = self.names().subrange(0, i + 1);
            assert(ns.drop_last() =~= self.names().subrange(0, i as int));
            assert(ns.last() == name@);
            i += 1;
        }
        assert(self.names().subrange(0, i as int) =~= self.names());
        out
    }
}

impl Default for HeaderMap {
    fn default() -> (r: Self)
        ensures
            r@ == Map::<Seq<char>, Seq<Seq<u8>>>::empty(),
    {
        Self::new()
    }
}

/// A header that was inserted reads back as its only value; a header that
/// was removed is absent; an appended value comes after the earlier ones.
pub proof fn law_header_writes_read_back(m: Map<Seq<char>, Seq<Seq<u8>>>, name: Seq<char>, value: Seq<u8>)
    ensures
        m.insert(name, seq![value]).contains_key(name),
        m.insert(name, seq![value])[name] == seq![value],
        !m.remove(name).contains_key(name),
        ({
            let appended = if m.contains_key(name) {
                m.insert(name, m[name].push(value))
            } else {
                m.insert(name, seq![value])
            };
            &&& appended.contains_key(name)
            &&& appended[name].last() == value
            &&& m.contains_key(name) ==> appended[name].subrange(0, m[name].len() as int) == m[name]
        }),
{
    if m.contains_key(name) {
        assert(m[name].push(value).subrange(0, m[name].len() as int) =~= m[name]);
    }
}


/// The headers of `m` whose names are kept: the name at position `t` of
/// `names` is kept when `keep[t]` holds.
pub open spec fn selected(m: Map<Seq<char>, Seq<Seq<u8>>>, names: Seq<Seq<char>>, keep: Seq<bool>) -> Map<Seq<char>, Seq<Seq<u8>>> {
    Map::new(|k: Seq<char>| exists|t: int| 0 <= t < names.len() && names[t] == k && keep[t], |k: Seq<char>| m[k])
}

impl HeaderMap {
    /// The header names, in the order in which they were first added.
    pub fn header_names(&self) -> (r: Vec<String>)
        ensures
            r@.map_values(|s: String| s@) == self.names(),
    {
        let mut out: Vec<String> = Vec::new();
        let mut i: usize = 0;
        while i < self.entries.len()
            invariant
                i <= self.entries@.len(),
                out@.map_values(|s: String| s@) =~= self.names().subrange(0, i as int),
            decreases self.entries@.len() - i,
        {
            let ghost before = out@;
            out.push(self.entries[i].0.clone());
            assert(out@.map_values(|s: String| s@) =~= before.map_values(|s: String| s@).push(self.names()[i as int]));
            i += 1;
        }
        out
    }

    /// The headers whose names are kept, with all their values; `keep`
    /// says of each name, in the order of `names`, whether it is kept.
    pub fn select(&self, keep: &Vec<bool>) -> (r: HeaderMap)
        requires
            keep@.len() == self.names().len(),
        ensures
            r@ == selected(self@, self.names(), keep@),
    {
        proof {
            use_type_invariant(self);
        }
        let ghost names = self.names();
        let mut entries: Vec<(String, Vec<Vec<u8>>)> = Vec::new();
        proof {
            lemma_keyed_empty(entries@);
        }
        let mut i: usize = 0;
        while i < self.entries.len()
            invariant
                i <= self.entries@.len(),
                keep@.len() == self.entries@.len(),
                names == self.names(),
                distinct_keys(self.entries@),
                distinct_keys(entries@),
                forall|t: int| 0 <= t < entries@.len() ==> (#[trigger] entries@[t]).1@.len() > 0,
                forall|t: int| 0 <= t < self.entries@.len() ==> (#[trigger] self.entries@[t]).1@.len() > 0,
                entries_view(entries@) =~= selected(self@, names.subrange(0, i as int), keep@),
            decreases self.entries@.len() - i,
        {
            proof {
                lemma_keyed_at(self.entries@, i as int);
            }
            if keep[i] {
                let name = self.entries[i].0.clone();
                let values = clone_values(&self.entries[i].1);
                let entry = (name, values);
                let ghost before = entries@;
                proof {
                    if keyed_map(before).contains_key(entry.0@) {
                        assert(entries_view(before).contains_key(entry.0@));
                        let t = choose|t: int| 0 <= t < i && names.subrange(0, i as int)[t] == entry.0@ && keep@[t];
                        assert(self.entries@[t].0@ != self.entries@[i as int].0@);
                    }
                    lemma_keyed_push(before, entry);
                }
                entries.push(entry);
                proof {
                    assert(entries@ == before.push(entry));
                    assert(entries_view(entries@) =~= entries_view(before).insert(entry.0@, values_view(entry.1)));
                    assert(values_view(entry.1) == self@[entry.0@]);
                    assert forall|k: Seq<char>| #[trigger] entries_view(entries@).contains_key(k) == selected(
                        self@,
                        names.subrange(0, i + 1),
                        keep@,
                    ).contains_key(k) by {
                        if selected(self@, names.subrange(0, i + 1), keep@).contains_key(k) && k != entry.0@ {
                            let t = choose|t: int| 0 <= t < i + 1 && names.subrange(0, i + 1)[t] == k && keep@[t];
                            assert(names.subrange(0, i as int)[t] == k);
                        }
                        if entries_view(entries@).contains_key(k) && k != entry.0@ {
                            assert(entries_view(before).contains_key(k));
                            let t = choose|t: int| 0 <= t < i && names.subrange(0, i as int)[t] == k && keep@[t];
                            assert(names.subrange(0, i + 1)[t] == k);
                        }
                        if k == entry.0@ {
                            assert(names.subrange(0, i + 1)[i as int] == k);
                        }
                    }
                    assert(entries_view(entries@) =~= selected(self@, names.subrange(0, i + 1), keep@));
                }
            } else {
                proof {
                    assert forall|k: Seq<char>| #[trigger] entries_view(entries@).contains_key(k) == selected(
                        self@,
                        names.subrange(0, i + 1),
                        keep@,
                    ).contains_key(k) by {
                        if selected(self@, names.subrange(0, i + 1), keep@).contains_key(k) {
                            let t = choose|t: int| 0 <= t < i + 1 && names.subrange(0, i + 1)[t] == k && keep@[t];
                            assert(t != i);
                            assert(names.subrange(0, i as int)[t] == k);
                        }
                        if entries_view(entries@).contains_key(k) {
                            let t = choose|t: int| 0 <= t < i && names.subrange(0, i as int)[t] == k && keep@[t];
                            assert(names.subrange(0, i + 1)[t] == k);
                        }
                    }
                    assert(entries_view(entries@) =~= selected(self@, names.subrange(0, i + 1), keep@));
                }
            }
            i += 1;
        }
        assert(names.subrange(0, i as int) =~= names);
        HeaderMap { entries }
    }
}

fn clone_values(vs: &Vec<Vec<u8>>) -> (r: Vec<Vec<u8>>)
    ensures
        values_view(r) == values_view(*vs),
        r@.len() == vs@.len(),
{
    let mut out: Vec<Vec<u8>> = Vec::new();
    let mut i: usize = 0;
    while i < vs.len()
        invariant
            i <= vs@.len(),
            values_view(out) =~= values_view(*vs).subrange(0, i as int),
            out@.len() == i,
        decreases vs@.len() - i,
    {
        let ghost before = out;
        let v = vstd::slice::slice_to_vec(vs[i].as_slice());
        out.push(v);
        assert(values_view(out) =~= values_view(before).push(vs@[i as int]@));
        i += 1;
    }
    out
}
} // verus!

//! Lists of entries keyed by a string name, with pairwise distinct names, read
//! as finite maps from names to values.

use vstd::prelude::*;
use crate::text::chars_of;

verus! {

/// The names of the entries are pairwise distinct.
pub open spec fn distinct_keys<V>(s: Seq<(String, V)>) -> bool {
    forall|i: int, j: int|
        0 <= i < s.len() && 0 <= j < s.len() && i != j ==> #[trigger] s[i].0@ != #[trigger] s[j].0@
}

/// The map from names to values that a list of entries stands for.
pub open spec fn keyed_map<V>(s: Seq<(String, V)>) -> Map<Seq<char>, V> {
    Map::new(
        |k: Seq<char>| exists|i: int| 0 <= i < s.len() && #[trigger] s[i].0@ == k,
        |k: Seq<char>| s[choose|i: int| 0 <= i < s.len() && #[trigger] s[i].0@ == k].1,
    )
}

pub proof fn lemma_keyed_at<V>(s: Seq<(String, V)>, i: int)
    requires
        distinct_keys(s),
        0 <= i < s.len(),
    ensures
        keyed_map(s).contains_key(s[i].0@),
        keyed_map(s)[s[i].0@] == s[i].1,
{
    let k = s[i].0@;
    assert(keyed_map(s).dom().contains(k));
    let j = choose|j: int| 0 <= j < s.len() && #[trigger] s[j].0@ == k;
    assert(s[j].0@ == k);
}

pub proof fn lemma_keyed_empty<V>(s: Seq<(String, V)>)
    requires
        s.len() == 0,
    ensures
        distinct_keys(s),
        keyed_map(s) =~= Map::<Seq<char>, V>::empty(),
{
}

pub proof fn lemma_keyed_set<V>(s: Seq<(String, V)>, i: int, p: (String, V))
    requires
        distinct_keys(s),
        0 <= i < s.len(),
        p.0@ == s[i].0@,
    ensures
        distinct_keys(s.update(i, p)),
        keyed_map(s.update(i, p)) =~= keyed_map(s).insert(p.0@, p.1),
{
    let n = s.update(i, p);
    assert forall|a: int, b: int| 0 <= a < n.len() && 0 <= b < n.len() && a != b implies #[trigger] n[a].0@
        != #[trigger] n[b].0@ by {
        assert(s[a].0@ != s[b].0@);
    }
    let m = keyed_map(s).insert(p.0@, p.1);
    assert forall|k: Seq<char>| #[trigger] keyed_map(n).contains_key(k) <==> m.contains_key(k) by {
        if keyed_map(n).contains_key(k) {
            let j = choose|j: int| 0 <= j < n.len() && #[trigger] n[j].0@ == k;
            if j != i {
                assert(s[j].0@ == k);
            }
        }
        if m.contains_key(k) && k != p.0@ {
            let j = choose|j: int| 0 <= j < s.len() && #[trigger] s[j].0@ == k;
            assert(n[j].0@ == k);
        }
        if k == p.0@ {
            assert(n[i].0@ == k);
        }
    }
    assert forall|k: Seq<char>| #[trigger] keyed_map(n).contains_key(k) implies keyed_map(n)[k] == m[k] by {
        let j = choose|j: int| 0 <= j < n.len() && #[trigger] n[j].0@ == k;
        lemma_keyed_at(n, j);
        if j != i {
            lemma_keyed_at(s, j);
        }
    }
}

pub proof fn lemma_keyed_push<V>(s: Seq<(String, V)>, p: (String, V))
    requires
        distinct_keys(s),
        !keyed_map(s).contains_key(p.0@),
    ensures
        distinct_keys(s.push(p)),
        keyed_map(s.push(p)) =~= keyed_map(s).insert(p.0@, p.1),
{
    let n = s.push(p);
    assert forall|a: int, b: int| 0 <= a < n.len() && 0 <= b < n.len() && a != b implies #[trigger] n[a].0@
        != #[trigger] n[b].0@ by {
        if a == s.len() as int {
            assert(keyed_map(s).dom().contains(s[b].0@) || s[b].0@ != p.0@);
        } else if b == s.len() as int {
            assert(keyed_map(s).dom().contains(s[a].0@) || s[a].0@ != p.0@);
        }
    }
    let m = keyed_map(s).insert(p.0@, p.1);
    assert forall|k: Seq<char>| #[trigger] keyed_map(n).contains_key(k) <==> m.contains_key(k) by {
        if keyed_map(n).contains_key(k) {
            let j = choose|j: int| 0 <= j < n.len() && #[trigger] n[j].0@ == k;
            if j < s.len() {
                assert(s[j].0@ == k);
            }
        }
        if m.contains_key(k) && k != p.0@ {
            let j = choose|j: int| 0 <= j < s.len() && #[trigger] s[j].0@ == k;
            assert(n[j].0@ == k);
        }
        if k == p.0@ {
            assert(n[s.len() as int].0@ == k);
        }
    }
    assert forall|k: Seq<char>| #[trigger] keyed_map(n).contains_key(k) implies keyed_map(n)[k] == m[k] by {
        let j = choose|j: int| 0 <= j < n.len() && #[trigger] n[j].0@ == k;
        lemma_keyed_at(n, j);
        if j < s.len() {
            lemma_keyed_at(s, j);
        }
    }
}

pub proof fn lemma_keyed_remove<V>(s: Seq<(String, V)>, i: int)
    requires
        distinct_keys(s),
        0 <= i < s.len(),
    ensures
        distinct_keys(s.remove(i)),
        keyed_map(s.remove(i)) =~= keyed_map(s).remove(s[i].0@),
{
    let n = s.remove(i);
    assert forall|a: int, b: int| 0 <= a < n.len() && 0 <= b < n.len() && a != b implies #[trigger] n[a].0@
        != #[trigger] n[b].0@ by {
        let a1 = if a < i { a } else { a + 1 };
        let b1 = if b < i { b } else { b + 1 };
        assert(n[a] == s[a1]);
        assert(n[b] == s[b1]);
        assert(s[a1].0@ != s[b1].0@);
    }
    let m = keyed_map(s).remove(s[i].0@);
    assert forall|k: Seq<char>| #[trigger] keyed_map(n).contains_key(k) <==> m.contains_key(k) by {
        if keyed_map(n).contains_key(k) {
            let j = choose|j: int| 0 <= j < n.len() && #[trigger] n[j].0@ == k;
            let j1 = if j < i { j } else { j + 1 };
            assert(n[j] == s[j1]);
            assert(s[j1].0@ == k);
            assert(s[j1].0@ != s[i].0@);
        }
        if m.contains_key(k) {
            let j = choose|j: int| 0 <= j < s.len() && #[trigger] s[j].0@ == k;
            assert(j != i);
            let j1 = if j < i { j } else { j - 1 };
            assert(n[j1] == s[j]);
            assert(n[j1].0@ == k);
        }
    }
    assert forall|k: Seq<char>| #[trigger] keyed_map(n).contains_key(k) implies keyed_map(n)[k] == m[k] by {
        let j = choose|j: int| 0 <= j < n.len() && #[trigger] n[j].0@ == k;
        let j1 = if j < i { j } else { j + 1 };
        assert(n[j] == s[j1]);
        lemma_keyed_at(n, j);
        lemma_keyed_at(s, j1);
    }
}

/// A list of entries with distinct names holds as many entries as its map has keys.
pub proof fn lemma_keyed_len<V>(s: Seq<(String, V)>)
    requires
        distinct_keys(s),
    ensures
        keyed_map(s).dom().finite(),
        keyed_map(s).dom().len() == s.len(),
    decreases s.len(),
{
    if s.len() == 0 {
        lemma_keyed_empty(s);
    } else {
        let init = s.drop_last();
        assert(distinct_keys(init)) by {
            assert forall|a: int, b: int| 0 <= a < init.len() && 0 <= b < init.len() && a != b implies #[trigger] init[a].0@
                != #[trigger] init[b].0@ by {
                assert(s[a].0@ != s[b].0@);
            }
        }
        lemma_keyed_len(init);
        let p = s.last();
        assert(!keyed_map(init).contains_key(p.0@)) by {
            if keyed_map(init).contains_key(p.0@) {
                let j = choose|j: int| 0 <= j < init.len() && #[trigger] init[j].0@ == p.0@;
                assert(s[j].0@ != s[s.len() - 1].0@);
            }
        }
        lemma_keyed_push(init, p);
        assert(init.push(p) =~= s);
    }
}

/// Finds the position of the entry named `key`.
pub fn find_key<V>(s: &Vec<(String, V)>, key: &String) -> (r: Option<usize>)
    requires
        distinct_keys(s@),
    ensures
        r matches Some(i) ==> i < s@.len() && s@[i as int].0@ == key@ && keyed_map(s@).contains_key(key@)
            && keyed_map(s@)[key@] == s@[i as int].1,
        r is None ==> !keyed_map(s@).contains_key(key@),
{
    let mut i: usize = 0;
    while i < s.len()
        invariant
            i <= s@.len(),
            distinct_keys(s@),
            forall|t: int| 0 <= t < i ==> s@[t].0@ != key@,
        decreases s@.len() - i,
    {
        if s[i].0 == *key {
            proof {
                lemma_keyed_at(s@, i as int);
            }
            return Some(i);
        }
        i += 1;
    }
    proof {
        if keyed_map(s@).contains_key(key@) {
            let j = choose|j: int| 0 <= j < s@.len() && #[trigger] s@[j].0@ == key@;
            assert(s@[j].0@ == key@);
        }
    }
    None
}

/// `a` comes before `b` in the order of names: character by character, by
/// code point, a proper prefix first. This is the order of their UTF-8
/// bytes, which UTF-8 keeps.
pub open spec fn text_before(a: Seq<char>, b: Seq<char>) -> bool
    decreases a.len(),
{
    if a.len() == 0 {
        b.len() > 0
    } else if b.len() == 0 {
        false
    } else if a[0] != b[0] {
        (a[0] as u32) < (b[0] as u32)
    } else {
        text_before(a.drop_first(), b.drop_first())
    }
}

/// The names of the entries come in ascending order.
pub open spec fn names_ascending<V>(s: Seq<(String, V)>) -> bool {
    forall|i: int, j: int| 0 <= i < j < s.len() ==> text_before(#[trigger] s[i].0@, #[trigger] s[j].0@)
}

proof fn lemma_chars_differ(x: char, y: char)
    requires
        x != y,
    ensures
        (x as u32) != (y as u32),
{
    if (x as u32) == (y as u32) {
        vstd::utf8::char_u32_cast(x, x as u32);
        vstd::utf8::char_u32_cast(y, y as u32);
    }
}

/// No name comes before itself.
pub proof fn lemma_before_irreflexive(a: Seq<char>)
    ensures
        !text_before(a, a),
    decreases a.len(),
{
    if a.len() > 0 {
        lemma_before_irreflexive(a.drop_first());
    }
}

/// Of two different names, one comes before the other, and not both.
pub proof fn lemma_before_total(a: Seq<char>, b: Seq<char>)
    ensures
        a != b ==> text_before(a, b) || text_before(b, a),
        !(text_before(a, b) && text_before(b, a)),
    decreases a.len(),
{
    if a.len() > 0 && b.len() > 0 {
        if a[0] != b[0] {
            lemma_chars_differ(a[0], b[0]);
        } else {
            lemma_before_total(a.drop_first(), b.drop_first());
            if a.drop_first() == b.drop_first() {
                assert(a =~= seq![a[0]] + a.drop_first());
                assert(b =~= seq![b[0]] + b.drop_first());
            }
        }
    } else if a.len() == 0 && b.len() == 0 {
        assert(a =~= b);
    }
}

/// The order of names is transitive.
pub proof fn lemma_before_transitive(a: Seq<char>, b: Seq<char>, c: Seq<char>)
    requires
        text_before(a, b),
        text_before(b, c),
    ensures
        text_before(a, c),
    decreases a.len(),
{
    if a.len() > 0 && b.len() > 0 && c.len() > 0 {
        if a[0] == b[0] && b[0] == c[0] {
            lemma_before_transitive(a.drop_first(), b.drop_first(), c.drop_first());
        } else if a[0] != c[0] {
            if a[0] == b[0] {
                lemma_chars_differ(b[0], c[0]);
            } else if b[0] == c[0] {
                lemma_chars_differ(a[0], b[0]);
            } else {
                lemma_chars_differ(a[0], b[0]);
                lemma_chars_differ(b[0], c[0]);
            }
            lemma_chars_differ(a[0], c[0]);
        } else {
            lemma_chars_differ(a[0], b[0]);
            lemma_chars_differ(b[0], c[0]);
        }
    }
}

/// Whether `a` comes before `b` in the order of names.
pub fn name_before(a: &str, b: &str) -> (r: bool)
    ensures
        r == text_before(a@, b@),
{
    let av = chars_of(a);
    let bv = chars_of(b);
    let mut k: usize = 0;
    assert(av@.skip(0) =~= av@ && bv@.skip(0) =~= bv@);
    while k < av.len() && k < bv.len() && av[k] == bv[k]
        invariant
            k <= av@.len(),
            k <= bv@.len(),
            text_before(a@, b@) == text_before(av@.skip(k as int), bv@.skip(k as int)),
        decreases av@.len() - k,
    {
        assert(av@.skip(k as int).drop_first() =~= av@.skip(k + 1));
        assert(bv@.skip(k as int).drop_first() =~= bv@.skip(k + 1));
        k += 1;
    }
    if k == av.len() {
        k < bv.len()
    } else if k == bv.len() {
        false
    } else {
        (av[k] as u32) < (bv[k] as u32)
    }
}

/// Entries in ascending order of names hold no name twice.
pub proof fn lemma_ascending_distinct<V>(s: Seq<(String, V)>)
    requires
        names_ascending(s),
    ensures
        distinct_keys(s),
{
    assert forall|i: int, j: int| 0 <= i < s.len() && 0 <= j < s.len() && i != j implies #[trigger] s[i].0@
        != #[trigger] s[j].0@ by {
        if i < j {
            assert(text_before(s[i].0@, s[j].0@));
        } else {
            assert(text_before(s[j].0@, s[i].0@));
        }
        lemma_before_irreflexive(s[i].0@);
    }
}

/// Inserting an entry whose name is new, at the place its name takes in
/// the ascending order, keeps the order and adds its name to the map.
pub proof fn lemma_keyed_insert_ascending<V>(s: Seq<(String, V)>, i: int, p: (String, V))
    requires
        names_ascending(s),
        0 <= i <= s.len(),
        forall|k: int| 0 <= k < i ==> text_before(#[trigger] s[k].0@, p.0@),
        forall|k: int| i <= k < s.len() ==> text_before(p.0@, #[trigger] s[k].0@),
    ensures
        names_ascending(s.insert(i, p)),
        distinct_keys(s.insert(i, p)),
        keyed_map(s.insert(i, p)) =~= keyed_map(s).insert(p.0@, p.1),
{
    let n = s.insert(i, p);
    assert forall|a: int, b: int| 0 <= a < b < n.len() implies text_before(#[trigger] n[a].0@, #[trigger] n[b].0@) by {
        if b < i {
            assert(n[a] == s[a] && n[b] == s[b]);
        } else if a > i {
            assert(n[a] == s[a - 1] && n[b] == s[b - 1]);
        } else if a == i {
            assert(n[b] == s[b - 1]);
        } else if b == i {
            assert(n[a] == s[a]);
        } else {
            assert(n[a] == s[a] && n[b] == s[b - 1]);
            lemma_before_transitive(s[a].0@, p.0@, s[b - 1].0@);
        }
    }
    lemma_ascending_distinct(n);
    lemma_ascending_distinct(s);
    assert(!keyed_map(s).contains_key(p.0@)) by {
        if keyed_map(s).contains_key(p.0@) {
            let j = choose|j: int| 0 <= j < s.len() && #[trigger] s[j].0@ == p.0@;
            lemma_before_irreflexive(p.0@);
            if j < i {
                assert(text_before(s[j].0@, p.0@));
            } else {
                assert(text_before(p.0@, s[j].0@));
            }
        }
    }
    let m = keyed_map(s).insert(p.0@, p.1);
    assert forall|k: Seq<char>| #[trigger] keyed_map(n).contains_key(k) <==> m.contains_key(k) by {
        if keyed_map(n).contains_key(k) {
            let j = choose|j: int| 0 <= j < n.len() && #[trigger] n[j].0@ == k;
            if j < i {
                assert(n[j] == s[j]);
            } else if j > i {
                assert(n[j] == s[j - 1]);
            }
        }
        if m.contains_key(k) && k != p.0@ {
            let j = choose|j: int| 0 <= j < s.len() && #[trigger] s[j].0@ == k;
            if j < i {
                assert(n[j] == s[j]);
            } else {
                assert(n[j + 1] == s[j]);
            }
        }
        if k == p.0@ {
            assert(n[i].0@ == k);
        }
    }
    assert forall|k: Seq<char>| #[trigger] keyed_map(n).contains_key(k) implies keyed_map(n)[k] == m[k] by {
        let j = choose|j: int| 0 <= j < n.len() && #[trigger] n[j].0@ == k;
        lemma_keyed_at(n, j);
        if j < i {
            assert(n[j] == s[j]);
            lemma_keyed_at(s, j);
        } else if j > i {
            assert(n[j] == s[j - 1]);
            lemma_keyed_at(s, j - 1);
        }
    }
}

} // verus!

//! Association lists with unique keys.
//!
//! The stores of this crate keep their entries in vectors of key/value pairs
//! whose keys are unique; the mathematical view of such a vector is a `Map`.
//! One set of helpers is keyed by strings (viewed as `Seq<char>`), the other
//! by 64-bit integers.

use vstd::prelude::*;

use crate::strings::str_eq;

verus! {

// ---------------------------------------------------------------------------
// String-keyed lists
// ---------------------------------------------------------------------------
/// The keys of the entries, as character sequences.
pub open spec fn skeys_unique<V>(s: Seq<(String, V)>) -> bool {
    forall|i: int, j: int| 0 <= i < j < s.len() ==> s[i].0@ != s[j].0@
}

/// The map an entry list denotes.
pub open spec fn smap_of<V>(s: Seq<(String, V)>) -> Map<Seq<char>, V>
    decreases s.len(),
{
    if s.len() == 0 {
        Map::empty()
    } else {
        smap_of(s.drop_last()).insert(s.last().0@, s.last().1)
    }
}

pub proof fn lemma_smap_dom<V>(s: Seq<(String, V)>, k: Seq<char>)
    ensures
        smap_of(s).contains_key(k) <==> exists|i: int| 0 <= i < s.len() && s[i].0@ == k,
    decreases s.len(),
{
    if s.len() > 0 {
        lemma_smap_dom(s.drop_last(), k);
        if smap_of(s).contains_key(k) {
            if s.last().0@ == k {
                assert(s[s.len() - 1].0@ == k);
            } else {
                let i = choose|i: int| 0 <= i < s.drop_last().len() && s.drop_last()[i].0@ == k;
                assert(s[i].0@ == k);
            }
        }
        if exists|i: int| 0 <= i < s.len() && s[i].0@ == k {
            let i = choose|i: int| 0 <= i < s.len() && s[i].0@ == k;
            if i < s.len() - 1 {
                assert(s.drop_last()[i].0@ == k);
            }
        }
    }
}

pub proof fn lemma_smap_index<V>(s: Seq<(String, V)>, i: int)
    requires
        skeys_unique(s),
        0 <= i < s.len(),
    ensures
        smap_of(s).contains_key(s[i].0@),
        smap_of(s)[s[i].0@] == s[i].1,
    decreases s.len(),
{
    if i == s.len() - 1 {
        lemma_smap_dom(s, s[i].0@);
    } else {
        assert(skeys_unique(s.drop_last())) by {
            assert(forall|a: int, b: int|
                0 <= a < b < s.drop_last().len() ==> s.drop_last()[a].0@ == s[a].0@
                    && s.drop_last()[b].0@ == s[b].0@);
        }
        assert(s.drop_last()[i] == s[i]);
        lemma_smap_index(s.drop_last(), i);
        assert(s[i].0@ != s.last().0@);
    }
}

pub proof fn lemma_smap_unique_sub<V>(s: Seq<(String, V)>)
    requires
        skeys_unique(s),
        s.len() > 0,
    ensures
        skeys_unique(s.drop_last()),
{
    assert(forall|a: int, b: int|
        0 <= a < b < s.drop_last().len() ==> s.drop_last()[a].0@ == s[a].0@ && s.drop_last()[b].0@
            == s[b].0@);
}

pub proof fn lemma_smap_update<V>(s: Seq<(String, V)>, i: int, e: (String, V))
    requires
        skeys_unique(s),
        0 <= i < s.len(),
        e.0@ == s[i].0@,
    ensures
        smap_of(s.update(i, e)) == smap_of(s).insert(e.0@, e.1),
        skeys_unique(s.update(i, e)),
    decreases s.len(),
{
    let t = s.update(i, e);
    assert(skeys_unique(t)) by {
        assert(forall|a: int| 0 <= a < t.len() ==> t[a].0@ == s[a].0@);
    }
    if i == s.len() - 1 {
        assert(t.drop_last() =~= s.drop_last());
        assert(t.last() == e);
        assert(smap_of(t) == smap_of(s.drop_last()).insert(e.0@, e.1));
        assert(smap_of(s) == smap_of(s.drop_last()).insert(s.last().0@, s.last().1));
        assert(smap_of(s).insert(e.0@, e.1) =~= smap_of(s.drop_last()).insert(e.0@, e.1));
    } else {
        lemma_smap_unique_sub(s);
        assert(t.drop_last() =~= s.drop_last().update(i, e));
        assert(s.drop_last()[i] == s[i]);
        lemma_smap_update(s.drop_last(), i, e);
        assert(t.last() == s.last());
        // the touched key differs from the last key, so the two inserts commute
        assert(e.0@ != s.last().0@);
        assert(smap_of(t) == smap_of(s.drop_last()).insert(e.0@, e.1).insert(
            s.last().0@,
            s.last().1,
        ));
        assert(smap_of(s.drop_last()).insert(e.0@, e.1).insert(s.last().0@, s.last().1)
            =~= smap_of(s.drop_last()).insert(s.last().0@, s.last().1).insert(e.0@, e.1));
    }
}

pub proof fn lemma_smap_push<V>(s: Seq<(String, V)>, e: (String, V))
    requires
        skeys_unique(s),
        !smap_of(s).contains_key(e.0@),
    ensures
        smap_of(s.push(e)) == smap_of(s).insert(e.0@, e.1),
        skeys_unique(s.push(e)),
{
    let t = s.push(e);
    assert(t.drop_last() =~= s);
    assert(t.last() == e);
    lemma_smap_dom(s, e.0@);
    assert(skeys_unique(t)) by {
        assert(forall|a: int| 0 <= a < s.len() ==> t[a] == s[a]);
        assert(forall|a: int| 0 <= a < s.len() ==> s[a].0@ != e.0@);
    }
}

pub proof fn lemma_smap_remove<V>(s: Seq<(String, V)>, i: int)
    requires
        skeys_unique(s),
        0 <= i < s.len(),
    ensures
        smap_of(s.remove(i)) == smap_of(s).remove(s[i].0@),
        skeys_unique(s.remove(i)),
    decreases s.len(),
{
    let t = s.remove(i);
    assert(skeys_unique(t)) by {
        assert(forall|a: int|
            0 <= a < t.len() ==> t[a] == (if a < i {
                s[a]
            } else {
                s[a + 1]
            }));
    }
    if i == s.len() - 1 {
        assert(t =~= s.drop_last());
        lemma_smap_unique_sub(s);
        lemma_smap_dom(s.drop_last(), s[i].0@);
        assert(!smap_of(s.drop_last()).contains_key(s[i].0@)) by {
            if exists|a: int| 0 <= a < s.drop_last().len() && s.drop_last()[a].0@ == s[i].0@ {
                let a = choose|a: int|
                    0 <= a < s.drop_last().len() && s.drop_last()[a].0@ == s[i].0@;
                assert(s[a].0@ == s[i].0@);
            }
        }
        assert(smap_of(s).remove(s[i].0@) =~= smap_of(s.drop_last()));
    } else {
        lemma_smap_unique_sub(s);
        assert(t.drop_last() =~= s.drop_last().remove(i));
        assert(s.drop_last()[i] == s[i]);
        lemma_smap_remove(s.drop_last(), i);
        assert(t.last() == s.last());
        assert(s[i].0@ != s.last().0@);
        assert(smap_of(t) == smap_of(s.drop_last()).remove(s[i].0@).insert(
            s.last().0@,
            s.last().1,
        ));
        assert(smap_of(s.drop_last()).remove(s[i].0@).insert(s.last().0@, s.last().1)
            =~= smap_of(s.drop_last()).insert(s.last().0@, s.last().1).remove(s[i].0@));
    }
}

/// Index of the entry with key `key`, if one exists.
pub fn sfind<V>(list: &Vec<(String, V)>, key: &str) -> (r: Option<usize>)
    ensures
        match r {
            Some(i) => i < list@.len() && list@[i as int].0@ == key@,
            None => forall|i: int| 0 <= i < list@.len() ==> list@[i].0@ != key@,
        },
{
    let n = list.len();
    let mut i: usize = 0;
    while i < n
        invariant
            n == list@.len(),
            i <= n,
            forall|k: int| 0 <= k < i ==> list@[k].0@ != key@,
        decreases n - i,
    {
        if str_eq(list[i].0.as_str(), key) {
            return Some(i);
        }
        i = i + 1;
    }
    None
}

/// Whether the list holds an entry with key `key`.
pub fn shas<V>(list: &Vec<(String, V)>, key: &str) -> (r: bool)
    ensures
        r == smap_of(list@).contains_key(key@),
{
    proof {
        lemma_smap_dom(list@, key@);
    }
    match sfind(list, key) {
        Some(_) => true,
        None => false,
    }
}

/// Inserts `value` under `key`, replacing any entry with that key.
pub fn sset<V>(list: &mut Vec<(String, V)>, key: String, value: V)
    requires
        skeys_unique(old(list)@),
    ensures
        skeys_unique(final(list)@),
        smap_of(final(list)@) == smap_of(old(list)@).insert(key@, value),
        final(list)@.len() <= old(list)@.len() + 1,
{
    match sfind(list, key.as_str()) {
        Some(i) => {
            proof {
                lemma_smap_update(list@, i as int, (key, value));
            }
            let slot = &mut list[i];
            *slot = (key, value);
        },
        None => {
            proof {
                lemma_smap_dom(list@, key@);
                lemma_smap_push(list@, (key, value));
            }
            list.push((key, value));
        },
    }
}

/// Removes the entry with key `key`, returning its value.
pub fn sremove<V>(list: &mut Vec<(String, V)>, key: &str) -> (r: Option<V>)
    requires
        skeys_unique(old(list)@),
    ensures
        skeys_unique(final(list)@),
        smap_of(final(list)@) == smap_of(old(list)@).remove(key@),
        r is Some <==> smap_of(old(list)@).contains_key(key@),
        r is Some ==> r->0 == smap_of(old(list)@)[key@],
        r is Some ==> final(list)@.len() == old(list)@.len() - 1,
        r is None ==> final(list)@ == old(list)@,
{
    proof {
        lemma_smap_dom(list@, key@);
    }
    match sfind(list, key) {
        Some(i) => {
            proof {
                lemma_smap_index(list@, i as int);
                lemma_smap_remove(list@, i as int);
            }
            let entry = list.remove(i);
            Some(entry.1)
        },
        None => {
            proof {
                assert(smap_of(list@).remove(key@) =~= smap_of(list@));
            }
            None
        },
    }
}

/// Reference to the value under `key`, if present.
pub fn sget<'a, V>(list: &'a Vec<(String, V)>, key: &str) -> (r: Option<&'a V>)
    requires
        skeys_unique(list@),
    ensures
        match r {
            Some(v) => smap_of(list@).contains_key(key@) && *v == smap_of(list@)[key@],
            None => !smap_of(list@).contains_key(key@),
        },
{
    proof {
        lemma_smap_dom(list@, key@);
    }
    match sfind(list, key) {
        Some(i) => {
            proof {
                lemma_smap_index(list@, i as int);
            }
            Some(&list[i].1)
        },
        None => None,
    }
}

// ---------------------------------------------------------------------------
// Integer-keyed lists
// ---------------------------------------------------------------------------
/// Whether the 64-bit keys of the entries are unique.
pub open spec fn ukeys_unique<V>(s: Seq<(u64, V)>) -> bool {
    forall|i: int, j: int| 0 <= i < j < s.len() ==> s[i].0 != s[j].0
}

/// The map an entry list denotes.
pub open spec fn umap_of<V>(s: Seq<(u64, V)>) -> Map<u64, V>
    decreases s.len(),
{
    if s.len() == 0 {
        Map::empty()
    } else {
        umap_of(s.drop_last()).insert(s.last().0, s.last().1)
    }
}

pub proof fn lemma_umap_dom<V>(s: Seq<(u64, V)>, k: u64)
    ensures
        umap_of(s).contains_key(k) <==> exists|i: int| 0 <= i < s.len() && s[i].0 == k,
    decreases s.len(),
{
    if s.len() > 0 {
        lemma_umap_dom(s.drop_last(), k);
        if umap_of(s).contains_key(k) {
            if s.last().0 == k {
                assert(s[s.len() - 1].0 == k);
            } else {
                let i = choose|i: int| 0 <= i < s.drop_last().len() && s.drop_last()[i].0 == k;
                assert(s[i].0 == k);
            }
        }
        if exists|i: int| 0 <= i < s.len() && s[i].0 == k {
            let i = choose|i: int| 0 <= i < s.len() && s[i].0 == k;
            if i < s.len() - 1 {
                assert(s.drop_last()[i].0 == k);
            }
        }
    }
}

pub proof fn lemma_umap_index<V>(s: Seq<(u64, V)>, i: int)
    requires
        ukeys_unique(s),
        0 <= i < s.len(),
    ensures
        umap_of(s).contains_key(s[i].0),
        umap_of(s)[s[i].0] == s[i].1,
    decreases s.len(),
{
    if i == s.len() - 1 {
        lemma_umap_dom(s, s[i].0);
    } else {
        assert(ukeys_unique(s.drop_last())) by {
            assert(forall|a: int|
                0 <= a < s.drop_last().len() ==> s.drop_last()[a].0 == s[a].0);
        }
        assert(s.drop_last()[i] == s[i]);
        lemma_umap_index(s.drop_last(), i);
        assert(s[i].0 != s.last().0);
    }
}

pub proof fn lemma_umap_unique_sub<V>(s: Seq<(u64, V)>)
    requires
        ukeys_unique(s),
        s.len() > 0,
    ensures
        ukeys_unique(s.drop_last()),
{
    assert(forall|a: int| 0 <= a < s.drop_last().len() ==> s.drop_last()[a].0 == s[a].0);
}

pub proof fn lemma_umap_update<V>(s: Seq<(u64, V)>, i: int, e: (u64, V))
    requires
        ukeys_unique(s),
        0 <= i < s.len(),
        e.0 == s[i].0,
    ensures
        umap_of(s.update(i, e)) == umap_of(s).insert(e.0, e.1),
        ukeys_unique(s.update(i, e)),
    decreases s.len(),
{
    let t = s.update(i, e);
    assert(ukeys_unique(t)) by {
        assert(forall|a: int| 0 <= a < t.len() ==> t[a].0 == s[a].0);
    }
    if i == s.len() - 1 {
        assert(t.drop_last() =~= s.drop_last());
        assert(t.last() == e);
        assert(umap_of(s).insert(e.0, e.1) =~= umap_of(s.drop_last()).insert(e.0, e.1));
    } else {
        lemma_umap_unique_sub(s);
        assert(t.drop_last() =~= s.drop_last().update(i, e));
        assert(s.drop_last()[i] == s[i]);
        lemma_umap_update(s.drop_last(), i, e);
        assert(t.last() == s.last());
        assert(e.0 != s.last().0);
        assert(umap_of(t) == umap_of(s.drop_last()).insert(e.0, e.1).insert(
            s.last().0,
            s.last().1,
        ));
        assert(umap_of(s.drop_last()).insert(e.0, e.1).insert(s.last().0, s.last().1)
            =~= umap_of(s.drop_last()).insert(s.last().0, s.last().1).insert(e.0, e.1));
    }
}

pub proof fn lemma_umap_push<V>(s: Seq<(u64, V)>, e: (u64, V))
    requires
        ukeys_unique(s),
        !umap_of(s).contains_key(e.0),
    ensures
        umap_of(s.push(e)) == umap_of(s).insert(e.0, e.1),
        ukeys_unique(s.push(e)),
{
    let t = s.push(e);
    assert(t.drop_last() =~= s);
    assert(t.last() == e);
    lemma_umap_dom(s, e.0);
    assert(ukeys_unique(t)) by {
        assert(forall|a: int| 0 <= a < s.len() ==> t[a] == s[a]);
        assert(forall|a: int| 0 <= a < s.len() ==> s[a].0 != e.0);
    }
}

pub proof fn lemma_umap_remove<V>(s: Seq<(u64, V)>, i: int)
    requires
        ukeys_unique(s),
        0 <= i < s.len(),
    ensures
        umap_of(s.remove(i)) == umap_of(s).remove(s[i].0),
        ukeys_unique(s.remove(i)),
    decreases s.len(),
{
    let t = s.remove(i);
    assert(ukeys_unique(t)) by {
        assert(forall|a: int|
            0 <= a < t.len() ==> t[a] == (if a < i {
                s[a]
            } else {
                s[a + 1]
            }));
    }
    if i == s.len() - 1 {
        assert(t =~= s.drop_last());
        lemma_umap_unique_sub(s);
        lemma_umap_dom(s.drop_last(), s[i].0);
        assert(!umap_of(s.drop_last()).contains_key(s[i].0)) by {
            if exists|a: int| 0 <= a < s.drop_last().len() && s.drop_last()[a].0 == s[i].0 {
                let a = choose|a: int|
                    0 <= a < s.drop_last().len() && s.drop_last()[a].0 == s[i].0;
                assert(s[a].0 == s[i].0);
            }
        }
        assert(umap_of(s).remove(s[i].0) =~= umap_of(s.drop_last()));
    } else {
        lemma_umap_unique_sub(s);
        assert(t.drop_last() =~= s.drop_last().remove(i));
        assert(s.drop_last()[i] == s[i]);
        lemma_umap_remove(s.drop_last(), i);
        assert(t.last() == s.last());
        assert(s[i].0 != s.last().0);
        assert(umap_of(t) == umap_of(s.drop_last()).remove(s[i].0).insert(
            s.last().0,
            s.last().1,
        ));
        assert(umap_of(s.drop_last()).remove(s[i].0).insert(s.last().0, s.last().1)
            =~= umap_of(s.drop_last()).insert(s.last().0, s.last().1).remove(s[i].0));
    }
}

/// Index of the entry with key `key`, if one exists.
pub fn ufind<V>(list: &Vec<(u64, V)>, key: u64) -> (r: Option<usize>)
    ensures
        match r {
            Some(i) => i < list@.len() && list@[i as int].0 == key,
            None => forall|i: int| 0 <= i < list@.len() ==> list@[i].0 != key,
        },
{
    let n = list.len();
    let mut i: usize = 0;
    while i < n
        invariant
            n == list@.len(),
            i <= n,
            forall|k: int| 0 <= k < i ==> list@[k].0 != key,
        decreases n - i,
    {
        if list[i].0 == key {
            return Some(i);
        }
        i = i + 1;
    }
    None
}

/// A duplicate-free key sequence whose keys all occur in another
/// duplicate-free key sequence is no longer than it.
pub proof fn lemma_distinct_keys_len(a: Seq<u64>, b: Seq<u64>)
    requires
        forall|i: int, j: int| 0 <= i < j < a.len() ==> a[i] != a[j],
        forall|i: int, j: int| 0 <= i < j < b.len() ==> b[i] != b[j],
        forall|i: int| 0 <= i < a.len() ==> b.contains(#[trigger] a[i]),
    ensures
        a.len() <= b.len(),
    decreases a.len(),
{
    if a.len() > 0 {
        let x = a.last();
        assert(b.contains(x)) by {
            assert(a[a.len() - 1] == x);
        }
        let j = choose|j: int| 0 <= j < b.len() && b[j] == x;
        let a2 = a.drop_last();
        let b2 = b.remove(j);
        assert(forall|i: int| 0 <= i < a2.len() ==> a2[i] == a[i]);
        assert forall|i: int| 0 <= i < a2.len() implies b2.contains(#[trigger] a2[i]) by {
            assert(b.contains(a[i]));
            let k = choose|k: int| 0 <= k < b.len() && b[k] == a[i];
            assert(a[i] != x);
            assert(k != j);
            if k < j {
                assert(b2[k] == b[k]);
            } else {
                assert(b2[k - 1] == b[k]);
            }
        }
        assert(forall|i: int, j2: int| 0 <= i < j2 < a2.len() ==> a2[i] != a2[j2]);
        assert forall|i: int, j2: int| 0 <= i < j2 < b2.len() implies b2[i] != b2[j2] by {
            let oi = if i < j {
                i
            } else {
                i + 1
            };
            let oj = if j2 < j {
                j2
            } else {
                j2 + 1
            };
            assert(b2[i] == b[oi] && b2[j2] == b[oj]);
        }
        lemma_distinct_keys_len(a2, b2);
    }
}

} // verus!

//! String-keyed association lists.
//!
//! Every mapping of the lockfile document is kept as a `Vec<(String, V)>`.
//! At the specification level such a list is viewed as a sequence of
//! `(Seq<char>, V::V)` pairs, and `lookup` gives it first-match map
//! semantics.  Well-formed documents have distinct keys, so first-match
//! agrees with plain map lookup.

use vstd::prelude::*;

use crate::strutil::str_eq;

verus! {

/// The view of one association list: each key as its character sequence,
/// each value as its own view.
pub open spec fn entries_view<T: View>(entries: Seq<(String, T)>) -> Seq<(Seq<char>, T::V)> {
    entries.map_values(|p: (String, T)| (p.0@, p.1@))
}

/// First-match lookup in a sequence of key/value pairs.
pub open spec fn lookup<V>(s: Seq<(Seq<char>, V)>, key: Seq<char>) -> Option<V>
    decreases s.len(),
{
    if s.len() == 0 {
        None
    } else if s[0].0 == key {
        Some(s[0].1)
    } else {
        lookup(s.drop_first(), key)
    }
}

pub open spec fn contains_key<V>(s: Seq<(Seq<char>, V)>, key: Seq<char>) -> bool {
    lookup(s, key) is Some
}

/// No key occurs twice.
pub open spec fn distinct_keys<V>(s: Seq<(Seq<char>, V)>) -> bool {
    forall|i: int, j: int| 0 <= i < j < s.len() ==> s[i].0 != s[j].0
}

/// A found entry is the first whose key matches; before it nothing matches.
pub proof fn lemma_lookup_index<V>(s: Seq<(Seq<char>, V)>, key: Seq<char>, i: int)
    requires
        0 <= i < s.len(),
        s[i].0 == key,
        forall|j: int| 0 <= j < i ==> s[j].0 != key,
    ensures
        lookup(s, key) == Some(s[i].1),
    decreases i,
{
    if i == 0 {
    } else {
        lemma_lookup_index(s.drop_first(), key, i - 1);
    }
}

/// If no entry's key matches, lookup fails.
pub proof fn lemma_lookup_none<V>(s: Seq<(Seq<char>, V)>, key: Seq<char>)
    requires
        forall|j: int| 0 <= j < s.len() ==> s[j].0 != key,
    ensures
        lookup(s, key) is None,
    decreases s.len(),
{
    if s.len() > 0 {
        lemma_lookup_none(s.drop_first(), key);
    }
}

/// A successful lookup names some entry of the list.
pub proof fn lemma_lookup_some_index<V>(s: Seq<(Seq<char>, V)>, key: Seq<char>)
    requires
        lookup(s, key) is Some,
    ensures
        exists|i: int|
            0 <= i < s.len() && s[i].0 == key && lookup(s, key) == Some(s[i].1),
    decreases s.len(),
{
    if s.len() > 0 {
        if s[0].0 == key {
            assert(s[0].0 == key && lookup(s, key) == Some(s[0].1));
        } else {
            lemma_lookup_some_index(s.drop_first(), key);
            let i = choose|i: int|
                0 <= i < s.drop_first().len() && s.drop_first()[i].0 == key && lookup(
                    s.drop_first(),
                    key,
                ) == Some(s.drop_first()[i].1);
            assert(s[i + 1].0 == key && lookup(s, key) == Some(s[i + 1].1));
        }
    }
}

/// Appending an entry leaves earlier keys bound as before and binds the new
/// key only if it was unbound.
pub proof fn lemma_lookup_push<V>(s: Seq<(Seq<char>, V)>, key: Seq<char>, v: V, q: Seq<char>)
    ensures
        lookup(s.push((key, v)), q) == if lookup(s, q) is Some {
            lookup(s, q)
        } else if q == key {
            Some(v)
        } else {
            None::<V>
        },
    decreases s.len(),
{
    if s.len() == 0 {
        assert(s.push((key, v))[0] == (key, v));
        if q == key {
            assert(lookup(s.push((key, v)), q) == Some(v));
        } else {
            assert(s.push((key, v)).drop_first() =~= s);
        }
    } else {
        assert(s.push((key, v))[0] == s[0]);
        assert(s.push((key, v)).drop_first() =~= s.drop_first().push((key, v)));
        lemma_lookup_push(s.drop_first(), key, v, q);
    }
}

/// Finds the first entry for `key`, if any.
pub fn amap_get<'a, T: View>(entries: &'a Vec<(String, T)>, key: &str) -> (r: Option<&'a T>)
    ensures
        match r {
            Some(v) => lookup(entries_view(entries@), key@) == Some(v@),
            None => lookup(entries_view(entries@), key@) is None,
        },
{
    let ghost sv = entries_view(entries@);
    let mut i: usize = 0;
    while i < entries.len()
        invariant
            i <= entries@.len(),
            sv == entries_view(entries@),
            sv.len() == entries@.len(),
            forall|j: int| 0 <= j < i ==> sv[j].0 != key@,
        decreases entries@.len() - i,
    {
        proof {
            assert(sv[i as int] == (entries@[i as int].0@, entries@[i as int].1@));
        }
        if str_eq(entries[i].0.as_str(), key) {
            proof {
                lemma_lookup_index(sv, key@, i as int);
            }
            return Some(&entries[i].1);
        }
        i += 1;
    }
    proof {
        lemma_lookup_none(sv, key@);
    }
    None
}

/// Lookup through an optional map: an absent map binds nothing.
pub open spec fn opt_lookup<V>(o: Option<Seq<(Seq<char>, V)>>, key: Seq<char>) -> Option<V> {
    match o {
        Some(s) => lookup(s, key),
        None => None,
    }
}

/// The view of an optional association list.
pub open spec fn omap_view<T: View>(o: Option<Vec<(String, T)>>) -> Option<
    Seq<(Seq<char>, T::V)>,
> {
    match o {
        Some(m) => Some(entries_view(m@)),
        None => None,
    }
}

/// Finds the first entry for `key` in an optional map.
pub fn omap_get<'a, T: View>(o: &'a Option<Vec<(String, T)>>, key: &str) -> (r: Option<&'a T>)
    ensures
        match r {
            Some(v) => opt_lookup(omap_view(*o), key@) == Some(v@),
            None => opt_lookup(omap_view(*o), key@) is None,
        },
{
    match o {
        Some(m) => amap_get(m, key),
        None => None,
    }
}

/// Appends `key -> value` unless `key` is already bound, so that existing
/// bindings win and keys stay distinct.
pub fn amap_insert_keep<T: View>(entries: &mut Vec<(String, T)>, key: String, value: T)
    ensures
        forall|q: Seq<char>|
            lookup(entries_view(final(entries)@), q) == if lookup(
                entries_view(old(entries)@),
                q,
            ) is Some {
                lookup(entries_view(old(entries)@), q)
            } else if q == key@ {
                Some(value@)
            } else {
                None::<T::V>
            },
        distinct_keys(entries_view(old(entries)@)) ==> distinct_keys(
            entries_view(final(entries)@),
        ),
        contains_key(entries_view(old(entries)@), key@) ==> final(entries)@ == old(entries)@,
{
    let ghost prev = entries_view(entries@);
    let present = amap_get(entries, key.as_str()).is_some();
    if !present {
        entries.push((key, value));
        proof {
            assert(entries_view(entries@) =~= prev.push((entries@.last().0@, entries@.last().1@)));
            assert forall|q: Seq<char>| true implies lookup(entries_view(entries@), q) == (
            if lookup(prev, q) is Some {
                lookup(prev, q)
            } else if q == entries@.last().0@ {
                Some(entries@.last().1@)
            } else {
                None::<T::V>
            }) by {
                lemma_lookup_push(prev, entries@.last().0@, entries@.last().1@, q);
            }
            if distinct_keys(prev) {
                lemma_lookup_none_no_index(prev, entries@.last().0@);
                assert forall|i: int, j: int|
                    0 <= i < j < entries_view(entries@).len() implies entries_view(entries@)[i].0
                    != entries_view(entries@)[j].0 by {
                    if j < prev.len() {
                        assert(entries_view(entries@)[i] == prev[i]);
                        assert(entries_view(entries@)[j] == prev[j]);
                    } else {
                        assert(entries_view(entries@)[i] == prev[i]);
                    }
                }
            }
        }
    }
}

/// Viewing commutes with appending an entry.
pub proof fn lemma_entries_view_push<T: View>(s: Seq<(String, T)>, x: (String, T))
    ensures
        entries_view(s.push(x)) =~= entries_view(s).push((x.0@, x.1@)),
{
    assert forall|j: int| 0 <= j < s.len() + 1 implies entries_view(s.push(x))[j]
        == entries_view(s).push((x.0@, x.1@))[j] by {
        if j < s.len() {
            assert(s.push(x)[j] == s[j]);
        } else {
            assert(s.push(x)[j] == x);
        }
    }
}

/// An unbound key occurs at no index.
pub proof fn lemma_lookup_none_no_index<V>(s: Seq<(Seq<char>, V)>, key: Seq<char>)
    requires
        lookup(s, key) is None,
    ensures
        forall|j: int| 0 <= j < s.len() ==> s[j].0 != key,
    decreases s.len(),
{
    if s.len() > 0 {
        assert(s[0].0 != key);
        lemma_lookup_none_no_index(s.drop_first(), key);
        assert forall|j: int| 0 <= j < s.len() implies s[j].0 != key by {
            if j > 0 {
                assert(s.drop_first()[j - 1].0 != key);
            }
        }
    }
}

} // verus!

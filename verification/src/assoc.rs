//! Association lists keyed by text: ordered lists of `(key, value)` pairs,
//! used where a map is needed. `insert` replaces the value of a key that is
//! already there, in place, and appends a new key at the end, so a key never
//! stands twice in a list built by `insert`.
use vstd::prelude::*;
use crate::strs::str_eq;

verus! {

/// The position of the first pair whose key is `key`.
pub open spec fn key_index<V>(s: Seq<(Seq<char>, V)>, key: Seq<char>) -> Option<int>
    decreases s.len(),
{
    if s.len() == 0 {
        None
    } else if s[0].0 == key {
        Some(0)
    } else {
        match key_index(s.drop_first(), key) {
            Some(i) => Some(i + 1),
            None => None,
        }
    }
}

/// The value of the first pair whose key is `key`.
pub open spec fn assoc_get<V>(s: Seq<(Seq<char>, V)>, key: Seq<char>) -> Option<V> {
    match key_index(s, key) {
        Some(i) => Some(s[i].1),
        None => None,
    }
}

/// The list after `insert(key, value)` on a map.
pub open spec fn assoc_insert<V>(s: Seq<(Seq<char>, V)>, key: Seq<char>, value: V) -> Seq<(Seq<char>, V)> {
    match key_index(s, key) {
        Some(i) => s.update(i, (key, value)),
        None => s.push((key, value)),
    }
}

/// The keys of a list are pairwise distinct.
pub open spec fn keys_distinct<V>(s: Seq<(Seq<char>, V)>) -> bool {
    forall|i: int, j: int| 0 <= i < j < s.len() ==> s[i].0 != s[j].0
}

/// The model of a list of `(text, value)` pairs.
pub open spec fn pairs_view<T: View>(s: Seq<(String, T)>) -> Seq<(Seq<char>, T::V)> {
    s.map_values(|p: (String, T)| (p.0@, p.1@))
}

pub proof fn lemma_key_index<V>(s: Seq<(Seq<char>, V)>, key: Seq<char>)
    ensures
        match key_index(s, key) {
            Some(i) => 0 <= i < s.len() && s[i].0 == key && forall|j: int|
                0 <= j < i ==> s[j].0 != key,
            None => forall|j: int| 0 <= j < s.len() ==> s[j].0 != key,
        },
    decreases s.len(),
{
    if s.len() > 0 {
        lemma_key_index(s.drop_first(), key);
        if s[0].0 != key {
            match key_index(s.drop_first(), key) {
                Some(i) => {
                    assert forall|j: int| 0 <= j < i + 1 implies s[j].0 != key by {
                        if j > 0 {
                            assert(s[j] == s.drop_first()[j - 1]);
                        }
                    }
                },
                None => {
                    assert forall|j: int| 0 <= j < s.len() implies s[j].0 != key by {
                        if j > 0 {
                            assert(s[j] == s.drop_first()[j - 1]);
                        }
                    }
                },
            }
        }
    }
}

pub proof fn lemma_key_index_at<V>(s: Seq<(Seq<char>, V)>, key: Seq<char>, i: int)
    requires
        0 <= i < s.len(),
        s[i].0 == key,
        forall|j: int| 0 <= j < i ==> s[j].0 != key,
    ensures
        key_index(s, key) == Some(i),
{
    lemma_key_index(s, key);
}

pub proof fn lemma_key_index_none<V>(s: Seq<(Seq<char>, V)>, key: Seq<char>)
    requires
        forall|j: int| 0 <= j < s.len() ==> s[j].0 != key,
    ensures
        key_index(s, key) is None,
{
    lemma_key_index(s, key);
}

/// The first pair with a key in a concatenation is the first in its
/// first part, if there is one there.
pub proof fn lemma_key_index_concat<V>(a: Seq<(Seq<char>, V)>, b: Seq<(Seq<char>, V)>, key: Seq<char>)
    ensures
        key_index(a + b, key) == match key_index(a, key) {
            Some(i) => Some(i),
            None => match key_index(b, key) {
                Some(j) => Some(a.len() + j),
                None => None,
            },
        },
        assoc_get(a + b, key) == match key_index(a, key) {
            Some(_) => assoc_get(a, key),
            None => assoc_get(b, key),
        },
{
    lemma_key_index(a, key);
    lemma_key_index(b, key);
    let s = a + b;
    match key_index(a, key) {
        Some(i) => {
            assert(s[i] == a[i]);
            assert forall|j: int| 0 <= j < i implies s[j].0 != key by {
                assert(s[j] == a[j]);
            }
            lemma_key_index_at(s, key, i);
        },
        None => match key_index(b, key) {
            Some(j) => {
                assert(s[a.len() + j] == b[j]);
                assert forall|k: int| 0 <= k < a.len() + j implies s[k].0 != key by {
                    if k < a.len() {
                        assert(s[k] == a[k]);
                    } else {
                        assert(s[k] == b[k - a.len()]);
                    }
                }
                lemma_key_index_at(s, key, a.len() + j);
            },
            None => {
                assert forall|k: int| 0 <= k < s.len() implies s[k].0 != key by {
                    if k < a.len() {
                        assert(s[k] == a[k]);
                    } else {
                        assert(s[k] == b[k - a.len()]);
                    }
                }
                lemma_key_index_none(s, key);
            },
        },
    }
}

/// Inserting into a list whose keys are distinct keeps them distinct.
pub proof fn lemma_insert_distinct<V>(s: Seq<(Seq<char>, V)>, key: Seq<char>, value: V)
    requires
        keys_distinct(s),
    ensures
        keys_distinct(assoc_insert(s, key, value)),
        assoc_get(assoc_insert(s, key, value), key) == Some(value),
{
    lemma_key_index(s, key);
    let t = assoc_insert(s, key, value);
    match key_index(s, key) {
        Some(i) => {
            assert(forall|j: int| 0 <= j < t.len() ==> t[j].0 == s[j].0);
            lemma_key_index_at(t, key, i);
        },
        None => {
            lemma_key_index_at(t, key, s.len() as int);
        },
    }
}

/// Finds the first pair whose key is `key`.
pub fn find_key<T: View>(v: &Vec<(String, T)>, key: &str) -> (r: Option<usize>)
    ensures
        match r {
            Some(k) => k < v.len() && key_index(pairs_view(v@), key@) == Some(k as int),
            None => key_index(pairs_view(v@), key@) is None,
        },
{
    let ghost s = pairs_view(v@);
    let mut i: usize = 0;
    while i < v.len()
        invariant
            i <= v.len(),
            s == pairs_view(v@),
            forall|j: int| 0 <= j < i ==> s[j].0 != key@,
        decreases v.len() - i,
    {
        if str_eq(v[i].0.as_str(), key) {
            proof {
                lemma_key_index_at(s, key@, i as int);
            }
            return Some(i);
        }
        i += 1;
    }
    proof {
        lemma_key_index_none(s, key@);
    }
    None
}

/// `insert(key, value)` on an association list.
pub fn insert_key<T: View>(v: &mut Vec<(String, T)>, key: String, value: T)
    ensures
        pairs_view(final(v)@) == assoc_insert(pairs_view(old(v)@), key@, value@),
{
    let ghost before = v@;
    let ghost k = key@;
    let ghost x = value@;
    proof {
        lemma_key_index(pairs_view(v@), key@);
    }
    match find_key(v, key.as_str()) {
        Some(i) => {
            v.remove(i);
            v.insert(i, (key, value));
            assert(pairs_view(v@) =~= pairs_view(before).update(i as int, (k, x)));
            assert(key_index(pairs_view(before), k) == Some(i as int));
        },
        None => {
            v.push((key, value));
            assert(pairs_view(v@) =~= pairs_view(before).push((k, x)));
        },
    }
}

} // verus!

//! Association lists of string-keyed entries, viewed abstractly as
//! `Map<Seq<char>, _>`. Both persisted namespaces of the system (channel
//! registry and user profiles) are held this way.

use vstd::prelude::*;

verus! {

/// The map abstraction of an association list: later entries shadow
/// earlier ones with the same key.
pub open spec fn kv_map<T: View>(s: Seq<(String, T)>) -> Map<Seq<char>, T::V>
    decreases s.len(),
{
    if s.len() == 0 {
        Map::empty()
    } else {
        kv_map(s.drop_last()).insert(s.last().0@, s.last().1@)
    }
}

/// Some entry of `s` carries the key `k`.
pub open spec fn has_key<T: View>(s: Seq<(String, T)>, k: Seq<char>) -> bool {
    exists|i: int| 0 <= i < s.len() && s[i].0@ == k
}

/// No two entries of `s` carry the same key.
pub open spec fn unique_keys<T: View>(s: Seq<(String, T)>) -> bool {
    forall|i: int, j: int| 0 <= i < j < s.len() ==> s[i].0@ != s[j].0@
}

/// The abstract map has exactly the keys that the entries carry.
pub proof fn lemma_kv_contains<T: View>(s: Seq<(String, T)>, k: Seq<char>)
    ensures
        kv_map(s).contains_key(k) <==> has_key(s, k),
    decreases s.len(),
{
    if s.len() > 0 {
        lemma_kv_contains(s.drop_last(), k);
        if s.last().0@ == k {
            assert(s[s.len() - 1].0@ == k);
        } else if has_key(s.drop_last(), k) {
            let i = choose|i: int| 0 <= i < s.drop_last().len() && s.drop_last()[i].0@ == k;
            assert(s[i].0@ == k);
        } else if has_key(s, k) {
            let i = choose|i: int| 0 <= i < s.len() && s[i].0@ == k;
            assert(s.drop_last()[i].0@ == k);
        }
    }
}

/// With unique keys, the abstract map sends each entry's key to that
/// entry's value.
pub proof fn lemma_kv_index<T: View>(s: Seq<(String, T)>, i: int)
    requires
        unique_keys(s),
        0 <= i < s.len(),
    ensures
        kv_map(s).contains_key(s[i].0@),
        kv_map(s)[s[i].0@] == s[i].1@,
    decreases s.len(),
{
    lemma_kv_contains(s, s[i].0@);
    if i == s.len() - 1 {
    } else {
        assert(s[i].0@ != s.last().0@);
        assert(s.drop_last()[i] == s[i]);
        lemma_kv_index(s.drop_last(), i);
    }
}

/// With unique keys, the abstract map has as many keys as the list has
/// entries (and finitely many).
pub proof fn lemma_kv_dom_len<T: View>(s: Seq<(String, T)>)
    requires
        unique_keys(s),
    ensures
        kv_map(s).dom().finite(),
        kv_map(s).dom().len() == s.len(),
    decreases s.len(),
{
    if s.len() > 0 {
        lemma_kv_dom_len(s.drop_last());
        lemma_kv_contains(s.drop_last(), s.last().0@);
        assert(!has_key(s.drop_last(), s.last().0@)) by {
            if has_key(s.drop_last(), s.last().0@) {
                let i = choose|i: int|
                    0 <= i < s.drop_last().len() && s.drop_last()[i].0@ == s.last().0@;
                assert(s[i].0@ == s[s.len() - 1].0@);
            }
        }
        vstd::set::axiom_set_insert_len(kv_map(s.drop_last()).dom(), s.last().0@);
        assert(kv_map(s).dom() =~= kv_map(s.drop_last()).dom().insert(s.last().0@));
    }
}

/// Replacing the entry at `i` by one with the same key updates the
/// abstract map at that key.
pub proof fn lemma_kv_update<T: View>(s: Seq<(String, T)>, i: int, p: (String, T))
    requires
        unique_keys(s),
        0 <= i < s.len(),
        p.0@ == s[i].0@,
    ensures
        unique_keys(s.update(i, p)),
        kv_map(s.update(i, p)) == kv_map(s).insert(p.0@, p.1@),
    decreases s.len(),
{
    let s2 = s.update(i, p);
    assert forall|j: int| 0 <= j < s.len() implies s2[j].0@ == s[j].0@ by {}
    assert(unique_keys(s2));
    assert(kv_map(s2) =~= kv_map(s).insert(p.0@, p.1@)) by {
        assert forall|k: Seq<char>|
            kv_map(s2).contains_key(k) == kv_map(s).insert(p.0@, p.1@).contains_key(k) by {
            lemma_kv_contains(s, k);
            lemma_kv_contains(s2, k);
            if has_key(s, k) {
                let j = choose|j: int| 0 <= j < s.len() && s[j].0@ == k;
                assert(s2[j].0@ == k);
            }
            if has_key(s2, k) {
                let j = choose|j: int| 0 <= j < s2.len() && s2[j].0@ == k;
                assert(s[j].0@ == k);
            }
        }
        assert forall|k: Seq<char>| kv_map(s2).contains_key(k) implies kv_map(s2)[k]
            == kv_map(s).insert(p.0@, p.1@)[k] by {
            lemma_kv_contains(s2, k);
            let j = choose|j: int| 0 <= j < s2.len() && s2[j].0@ == k;
            lemma_kv_index(s2, j);
            if k == p.0@ {
                assert(j == i) by {
                    if j != i {
                        assert(s[j].0@ == k && s[i].0@ == k);
                    }
                }
            } else {
                assert(j != i);
                lemma_kv_index(s, j);
            }
        }
    }
}

/// Removing the entry at `i` removes exactly its key from the abstract
/// map.
pub proof fn lemma_kv_remove<T: View>(s: Seq<(String, T)>, i: int)
    requires
        unique_keys(s),
        0 <= i < s.len(),
    ensures
        unique_keys(s.remove(i)),
        kv_map(s.remove(i)) == kv_map(s).remove(s[i].0@),
{
    let s2 = s.remove(i);
    assert forall|j: int| 0 <= j < s2.len() implies s2[j] == (if j < i {
        s[j]
    } else {
        s[j + 1]
    }) by {}
    assert(unique_keys(s2));
    assert(kv_map(s2) =~= kv_map(s).remove(s[i].0@)) by {
        assert forall|k: Seq<char>|
            kv_map(s2).contains_key(k) == kv_map(s).remove(s[i].0@).contains_key(k) by {
            lemma_kv_contains(s, k);
            lemma_kv_contains(s2, k);
            if has_key(s2, k) {
                let j = choose|j: int| 0 <= j < s2.len() && s2[j].0@ == k;
                if j < i {
                    assert(s[j].0@ == k);
                } else {
                    assert(s[j + 1].0@ == k);
                }
            }
            if has_key(s, k) && k != s[i].0@ {
                let j = choose|j: int| 0 <= j < s.len() && s[j].0@ == k;
                assert(j != i);
                if j < i {
                    assert(s2[j].0@ == k);
                } else {
                    assert(s2[j - 1].0@ == k);
                }
            }
        }
        assert forall|k: Seq<char>| kv_map(s2).contains_key(k) implies kv_map(s2)[k]
            == kv_map(s).remove(s[i].0@)[k] by {
            lemma_kv_contains(s2, k);
            let j = choose|j: int| 0 <= j < s2.len() && s2[j].0@ == k;
            lemma_kv_index(s2, j);
            if j < i {
                lemma_kv_index(s, j);
            } else {
                lemma_kv_index(s, j + 1);
            }
        }
    }
}

/// Inserting an entry with a fresh key at any position adds exactly
/// that key to the abstract map.
pub proof fn lemma_kv_insert_at<T: View>(s: Seq<(String, T)>, i: int, p: (String, T))
    requires
        unique_keys(s),
        !has_key(s, p.0@),
        0 <= i <= s.len(),
    ensures
        unique_keys(s.insert(i, p)),
        kv_map(s.insert(i, p)) == kv_map(s).insert(p.0@, p.1@),
{
    let s2 = s.insert(i, p);
    assert forall|j: int| 0 <= j < s2.len() implies s2[j] == (if j < i {
        s[j]
    } else if j == i {
        p
    } else {
        s[j - 1]
    }) by {}
    assert forall|j1: int, j2: int| 0 <= j1 < j2 < s2.len() implies s2[j1].0@ != s2[j2].0@ by {
        if j1 != i && j2 != i {
            let k1 = if j1 < i { j1 } else { j1 - 1 };
            let k2 = if j2 < i { j2 } else { j2 - 1 };
            assert(s[k1].0@ != s[k2].0@);
        }
    }
    assert(kv_map(s2) =~= kv_map(s).insert(p.0@, p.1@)) by {
        assert forall|k: Seq<char>|
            kv_map(s2).contains_key(k) == kv_map(s).insert(p.0@, p.1@).contains_key(k) by {
            lemma_kv_contains(s, k);
            lemma_kv_contains(s2, k);
            if has_key(s2, k) {
                let j = choose|j: int| 0 <= j < s2.len() && s2[j].0@ == k;
                if j < i {
                    assert(s[j].0@ == k);
                } else if j > i {
                    assert(s[j - 1].0@ == k);
                }
            }
            if has_key(s, k) {
                let j = choose|j: int| 0 <= j < s.len() && s[j].0@ == k;
                if j < i {
                    assert(s2[j].0@ == k);
                } else {
                    assert(s2[j + 1].0@ == k);
                }
            }
            if k == p.0@ {
                assert(s2[i].0@ == k);
            }
        }
        assert forall|k: Seq<char>| kv_map(s2).contains_key(k) implies kv_map(s2)[k]
            == kv_map(s).insert(p.0@, p.1@)[k] by {
            lemma_kv_contains(s2, k);
            let j = choose|j: int| 0 <= j < s2.len() && s2[j].0@ == k;
            lemma_kv_index(s2, j);
            if j < i {
                lemma_kv_index(s, j);
            } else if j > i {
                lemma_kv_index(s, j - 1);
            }
        }
    }
}

/// Appending an entry with a fresh key adds exactly that key to the
/// abstract map.
pub proof fn lemma_kv_push<T: View>(s: Seq<(String, T)>, p: (String, T))
    requires
        unique_keys(s),
        !has_key(s, p.0@),
    ensures
        unique_keys(s.push(p)),
        kv_map(s.push(p)) == kv_map(s).insert(p.0@, p.1@),
{
    assert(s.push(p) =~= s.insert(s.len() as int, p));
    lemma_kv_insert_at(s, s.len() as int, p);
}

/// Finds the position of the entry carrying `name`, if one is present.
pub fn find_key<T: View>(v: &Vec<(String, T)>, name: &String) -> (r: Option<usize>)
    ensures
        match r {
            Some(i) => i < v@.len() && v@[i as int].0@ == name@,
            None => !has_key(v@, name@),
        },
{
    let mut i: usize = 0;
    while i < v.len()
        invariant
            i <= v@.len(),
            forall|j: int| 0 <= j < i ==> v@[j].0@ != name@,
        decreases v@.len() - i,
    {
        if v[i].0 == *name {
            return Some(i);
        }
        i = i + 1;
    }
    None
}

} // verus!

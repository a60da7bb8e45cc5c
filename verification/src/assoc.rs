//! Association lists keyed by identifiers, with their map models.
use vstd::prelude::*;

verus! {

/// Keys of an association list are pairwise distinct.
pub open spec fn distinct_keys<V>(entries: Seq<(String, V)>) -> bool {
    forall|i: int, j: int|
        0 <= i < entries.len() && 0 <= j < entries.len() && i != j ==> entries[i].0@ != entries[j].0@
}

/// Keys of an association list, by their characters.
pub open spec fn key_set<V>(entries: Seq<(String, V)>) -> Set<Seq<char>> {
    Set::new(|k: Seq<char>| exists|i: int| 0 <= i < entries.len() && entries[i].0@ == k)
}

/// Position of a key in an association list.
pub fn find_key<V>(entries: &Vec<(String, V)>, key: &String) -> (r: Option<usize>)
    ensures
        r matches Some(i) ==> i < entries@.len() && entries@[i as int].0@ == key@,
        r is None ==> forall|i: int| 0 <= i < entries@.len() ==> entries@[i].0@ != key@,
        r is None <==> !key_set(entries@).contains(key@),
{
    let mut i: usize = 0;
    while i < entries.len()
        invariant
            i <= entries@.len(),
            forall|j: int| 0 <= j < i ==> entries@[j].0@ != key@,
        decreases entries@.len() - i,
    {
        if entries[i].0 == *key {
            return Some(i);
        }
        i = i + 1;
    }
    None
}

/// Position of a key in an association list (meaningful when the key occurs).
pub open spec fn key_index<V>(entries: Seq<(String, V)>, k: Seq<char>) -> int {
    choose|i: int| 0 <= i < entries.len() && entries[i].0@ == k
}

/// Model of an association list as a map, each value taken through `f`.
pub open spec fn assoc_map<V, M>(entries: Seq<(String, V)>, f: spec_fn(V) -> M) -> Map<Seq<char>, M> {
    Map::new(
        |k: Seq<char>| key_set(entries).contains(k),
        |k: Seq<char>| f(entries[key_index(entries, k)].1),
    )
}

/// The position of a key that occurs is its unique position.
pub proof fn lemma_key_index<V>(entries: Seq<(String, V)>, i: int)
    requires
        distinct_keys(entries),
        0 <= i < entries.len(),
    ensures
        key_index(entries, entries[i].0@) == i,
        key_set(entries).contains(entries[i].0@),
{
    let k = entries[i].0@;
    assert(key_set(entries).contains(k));
    let j = key_index(entries, k);
    assert(0 <= j < entries.len() && entries[j].0@ == k);
}

/// Replacing the value at a position updates the map at that position's key.
pub proof fn lemma_assoc_update<V, M>(entries: Seq<(String, V)>, i: int, v: V, f: spec_fn(V) -> M)
    requires
        distinct_keys(entries),
        0 <= i < entries.len(),
    ensures
        distinct_keys(entries.update(i, (entries[i].0, v))),
        key_set(entries.update(i, (entries[i].0, v))) == key_set(entries),
        assoc_map(entries.update(i, (entries[i].0, v)), f) == assoc_map(entries, f).insert(entries[i].0@, f(v)),
{
    let e2 = entries.update(i, (entries[i].0, v));
    assert(key_set(e2) =~= key_set(entries)) by {
        assert forall|k| key_set(e2).contains(k) implies key_set(entries).contains(k) by {
            let j = choose|j: int| 0 <= j < e2.len() && e2[j].0@ == k;
            assert(entries[j].0@ == k);
        }
        assert forall|k| key_set(entries).contains(k) implies key_set(e2).contains(k) by {
            let j = choose|j: int| 0 <= j < entries.len() && entries[j].0@ == k;
            assert(e2[j].0@ == k);
        }
    }
    assert forall|k| #[trigger] key_set(e2).contains(k) implies assoc_map(e2, f)[k] == assoc_map(entries, f).insert(entries[i].0@, f(v))[k] by {
        let j = key_index(e2, k);
        let j2 = key_index(entries, k);
        lemma_key_index(entries, j2);
        if k == entries[i].0@ {
            lemma_key_index(entries, i);
        } else {
            assert(j != i);
        }
    }
    lemma_key_index(entries, i);
    assert(assoc_map(e2, f) =~= assoc_map(entries, f).insert(entries[i].0@, f(v)));
}

/// Appending a fresh key extends the map with it.
pub proof fn lemma_assoc_push<V, M>(entries: Seq<(String, V)>, k: String, v: V, f: spec_fn(V) -> M)
    requires
        distinct_keys(entries),
        !key_set(entries).contains(k@),
    ensures
        distinct_keys(entries.push((k, v))),
        key_set(entries.push((k, v))) == key_set(entries).insert(k@),
        assoc_map(entries.push((k, v)), f) == assoc_map(entries, f).insert(k@, f(v)),
{
    let e2 = entries.push((k, v));
    assert forall|i: int, j: int| 0 <= i < e2.len() && 0 <= j < e2.len() && i != j implies e2[i].0@ != e2[j].0@ by {
        if i == entries.len() {
            if e2[j].0@ == k@ {
                assert(key_set(entries).contains(entries[j].0@));
            }
        } else if j == entries.len() {
            if e2[i].0@ == k@ {
                assert(key_set(entries).contains(entries[i].0@));
            }
        }
    }
    assert(key_set(e2) =~= key_set(entries).insert(k@)) by {
        assert forall|x| key_set(e2).contains(x) implies key_set(entries).insert(k@).contains(x) by {
            let j = choose|j: int| 0 <= j < e2.len() && e2[j].0@ == x;
            if j < entries.len() {
                assert(entries[j].0@ == x);
            }
        }
        assert forall|x| key_set(entries).insert(k@).contains(x) implies key_set(e2).contains(x) by {
            if x == k@ {
                assert(e2[entries.len() as int].0@ == x);
            } else {
                let j = choose|j: int| 0 <= j < entries.len() && entries[j].0@ == x;
                assert(e2[j].0@ == x);
            }
        }
    }
    assert forall|x| #[trigger] key_set(e2).contains(x) implies assoc_map(e2, f)[x] == assoc_map(entries, f).insert(k@, f(v))[x] by {
        let j = key_index(e2, x);
        lemma_key_index(e2, j);
        if x != k@ {
            let j2 = key_index(entries, x);
            lemma_key_index(entries, j2);
            assert(e2[j2].0@ == x);
            lemma_key_index(e2, j2);
        } else {
            lemma_key_index(e2, entries.len() as int);
        }
    }
    assert(assoc_map(e2, f) =~= assoc_map(entries, f).insert(k@, f(v)));
}


/// Map model of an association list, values taken as they are.
pub open spec fn entry_map<V>(entries: Seq<(String, V)>) -> Map<Seq<char>, V> {
    assoc_map(entries, |v: V| v)
}

/// Bind `key` to `val`, replacing an earlier binding of the key.
pub fn assoc_set<V>(entries: &mut Vec<(String, V)>, key: String, val: V)
    requires
        distinct_keys(old(entries)@),
    ensures
        distinct_keys(final(entries)@),
        key_set(final(entries)@) == key_set(old(entries)@).insert(key@),
        entry_map(final(entries)@) == entry_map(old(entries)@).insert(key@, val),
{
    match find_key(entries, &key) {
        Some(i) => {
            proof { lemma_assoc_update(entries@, i as int, val, |v: V| v); }
            let k = entries[i].0.clone();
            entries.set(i, (k, val));
            proof {
                assert(key_set(old(entries)@).insert(key@) =~= key_set(old(entries)@)) by {
                    lemma_key_index(old(entries)@, i as int);
                }
            }
        },
        None => {
            proof { lemma_assoc_push(entries@, key, val, |v: V| v); }
            entries.push((key, val));
        },
    }
}

} // verus!

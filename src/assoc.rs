//! Association lists keyed by strings, with unique keys, and the map that
//! such a list stands for.

use vstd::prelude::*;

verus! {

/// No key occurs twice in the list.
pub open spec fn keys_unique<V>(s: Seq<(String, V)>) -> bool {
    forall|i: int, j: int|
        0 <= i < s.len() && 0 <= j < s.len() && #[trigger] s[i].0@ == #[trigger] s[j].0@ ==> i == j
}

/// The map from each key's characters to its value.
pub open spec fn assoc_map<V>(s: Seq<(String, V)>) -> Map<Seq<char>, V>
    decreases s.len(),
{
    if s.len() == 0 {
        Map::empty()
    } else {
        assoc_map(s.drop_last()).insert(s.last().0@, s.last().1)
    }
}

/// With unique keys, the map holds exactly the list's keys, each with the
/// value that stands beside it.
pub proof fn lemma_assoc_map<V>(s: Seq<(String, V)>)
    requires
        keys_unique(s),
    ensures
        forall|k: Seq<char>| #[trigger]
            assoc_map(s).contains_key(k) <==> exists|i: int| 0 <= i < s.len() && s[i].0@ == k,
        forall|i: int| 0 <= i < s.len() ==> #[trigger] assoc_map(s)[s[i].0@] == s[i].1,
    decreases s.len(),
{
    if s.len() > 0 {
        let t = s.drop_last();
        assert(assoc_map(s) == assoc_map(t).insert(s.last().0@, s.last().1));
        assert(forall|i: int| 0 <= i < t.len() ==> #[trigger] t[i] == s[i]);
        assert(keys_unique(t)) by {
            assert forall|i: int, j: int|
                0 <= i < t.len() && 0 <= j < t.len() && #[trigger] t[i].0@ == #[trigger] t[j].0@
                implies i == j by {
                assert(s[i].0@ == s[j].0@);
            }
        }
        lemma_assoc_map(t);
        assert forall|k: Seq<char>| #[trigger]
            assoc_map(s).contains_key(k) <==> exists|i: int| 0 <= i < s.len() && s[i].0@ == k by {
            if assoc_map(s).contains_key(k) {
                if k == s.last().0@ {
                    assert(s[s.len() - 1].0@ == k);
                } else {
                    assert(assoc_map(t).contains_key(k));
                    let i = choose|i: int| 0 <= i < t.len() && t[i].0@ == k;
                    assert(t[i] == s[i]);
                    assert(s[i].0@ == k);
                }
            }
            if exists|i: int| 0 <= i < s.len() && s[i].0@ == k {
                let i = choose|i: int| 0 <= i < s.len() && s[i].0@ == k;
                if i < t.len() {
                    assert(t[i] == s[i]);
                    assert(t[i].0@ == k);
                }
            }
        }
        assert forall|i: int| 0 <= i < s.len() implies #[trigger] assoc_map(s)[s[i].0@] == s[i].1 by {
            if i < t.len() {
                assert(t[i] == s[i]);
                assert(t[i].0@ == s[i].0@);
                assert(s[i].0@ != s[s.len() - 1].0@);
            }
        }
    }
}

/// The position of `key` in the list, if it occurs.
pub fn find_key<V>(s: &Vec<(String, V)>, key: &String) -> (r: Option<usize>)
    ensures
        r is Some ==> r->0 < s@.len() && s@[r->0 as int].0@ == key@,
        r is None ==> forall|i: int| 0 <= i < s@.len() ==> #[trigger] s@[i].0@ != key@,
{
    let mut i: usize = 0;
    while i < s.len()
        invariant
            i <= s@.len(),
            forall|j: int| 0 <= j < i ==> #[trigger] s@[j].0@ != key@,
        decreases s@.len() - i,
    {
        if s[i].0 == *key {
            return Some(i);
        }
        i = i + 1;
    }
    None
}

/// Sets `key` to `value`, replacing the value it had.
pub fn assoc_set<V>(s: &mut Vec<(String, V)>, key: String, value: V)
    requires
        keys_unique(old(s)@),
    ensures
        keys_unique(final(s)@),
        assoc_map(final(s)@) == assoc_map(old(s)@).insert(key@, value),
{
    proof {
        lemma_assoc_map(s@);
    }
    let ghost k = key@;
    match find_key(s, &key) {
        Some(i) => {
            s.set(i, (key, value));
            proof {
                assert(keys_unique(s@)) by {
                    assert forall|a: int, b: int|
                        0 <= a < s@.len() && 0 <= b < s@.len() && #[trigger] s@[a].0@
                            == #[trigger] s@[b].0@ implies a == b by {
                        assert(old(s)@[a].0@ == s@[a].0@);
                        assert(old(s)@[b].0@ == s@[b].0@);
                    }
                }
                lemma_assoc_map(s@);
                assert(assoc_map(s@) =~= assoc_map(old(s)@).insert(k, value)) by {
                    assert forall|x: Seq<char>| #[trigger] assoc_map(s@).contains_key(x)
                        <==> assoc_map(old(s)@).insert(k, value).contains_key(x) by {
                        if assoc_map(s@).contains_key(x) {
                            let j = choose|j: int| 0 <= j < s@.len() && s@[j].0@ == x;
                            assert(old(s)@[j].0@ == x);
                        }
                        if assoc_map(old(s)@).contains_key(x) {
                            let j = choose|j: int| 0 <= j < old(s)@.len() && old(s)@[j].0@ == x;
                            assert(s@[j].0@ == x);
                        }
                    }
                    assert forall|x: Seq<char>| #[trigger] assoc_map(s@).contains_key(x)
                        implies assoc_map(s@)[x] == assoc_map(old(s)@).insert(k, value)[x] by {
                        let j = choose|j: int| 0 <= j < s@.len() && s@[j].0@ == x;
                        assert(assoc_map(s@)[s@[j].0@] == s@[j].1);
                        if j != i {
                            assert(old(s)@[j] == s@[j]);
                        }
                    }
                }
            }
        },
        None => {
            s.push((key, value));
            proof {
                assert(s@.drop_last() =~= old(s)@);
                assert(keys_unique(s@)) by {
                    assert forall|a: int, b: int|
                        0 <= a < s@.len() && 0 <= b < s@.len() && #[trigger] s@[a].0@
                            == #[trigger] s@[b].0@ implies a == b by {
                        if a < old(s)@.len() {
                            assert(old(s)@[a] == s@[a]);
                        }
                        if b < old(s)@.len() {
                            assert(old(s)@[b] == s@[b]);
                        }
                    }
                }
            }
        },
    }
}

/// Removes `key`, and tells whether it was there.
pub fn assoc_remove<V>(s: &mut Vec<(String, V)>, key: &String) -> (r: Option<V>)
    requires
        keys_unique(old(s)@),
    ensures
        keys_unique(final(s)@),
        r is Some <==> assoc_map(old(s)@).contains_key(key@),
        r is Some ==> r->0 == assoc_map(old(s)@)[key@],
        r is None ==> *final(s) == *old(s),
        assoc_map(final(s)@) == assoc_map(old(s)@).remove(key@),
{
    proof {
        lemma_assoc_map(s@);
    }
    match find_key(s, key) {
        Some(i) => {
            let (_, v) = s.remove(i);
            proof {
                let o = old(s)@;
                assert(forall|j: int| 0 <= j < i ==> s@[j] == #[trigger] o[j]);
                assert(forall|j: int| i <= j < s@.len() ==> s@[j] == #[trigger] o[j + 1]);
                assert(keys_unique(s@)) by {
                    assert forall|a: int, b: int|
                        0 <= a < s@.len() && 0 <= b < s@.len() && #[trigger] s@[a].0@
                            == #[trigger] s@[b].0@ implies a == b by {
                        let a2 = if a < i { a } else { a + 1 };
                        let b2 = if b < i { b } else { b + 1 };
                        assert(s@[a] == o[a2]);
                        assert(s@[b] == o[b2]);
                    }
                }
                lemma_assoc_map(s@);
                assert(assoc_map(s@) =~= assoc_map(o).remove(key@)) by {
                    assert forall|x: Seq<char>| #[trigger] assoc_map(s@).contains_key(x)
                        <==> assoc_map(o).remove(key@).contains_key(x) by {
                        if assoc_map(s@).contains_key(x) {
                            let j = choose|j: int| 0 <= j < s@.len() && s@[j].0@ == x;
                            let j2 = if j < i { j } else { j + 1 };
                            assert(o[j2].0@ == x);
                            assert(j2 != i);
                        }
                        if assoc_map(o).contains_key(x) && x != key@ {
                            let j = choose|j: int| 0 <= j < o.len() && o[j].0@ == x;
                            assert(j != i);
                            if j < i {
                                assert(s@[j].0@ == x);
                            } else {
                                assert(s@[j - 1].0@ == x);
                            }
                        }
                    }
                    assert forall|x: Seq<char>| #[trigger] assoc_map(s@).contains_key(x)
                        implies assoc_map(s@)[x] == assoc_map(o).remove(key@)[x] by {
                        let j = choose|j: int| 0 <= j < s@.len() && s@[j].0@ == x;
                        let j2 = if j < i { j } else { j + 1 };
                        assert(assoc_map(s@)[s@[j].0@] == s@[j].1);
                        assert(assoc_map(o)[o[j2].0@] == o[j2].1);
                    }
                }
            }
            Some(v)
        },
        None => {
            proof {
                assert(!assoc_map(s@).contains_key(key@));
                assert(assoc_map(s@) =~= assoc_map(s@).remove(key@));
            }
            None
        },
    }
}

/// The value stored under `key`, if any.
pub fn assoc_get<'a, V>(s: &'a Vec<(String, V)>, key: &String) -> (r: Option<&'a V>)
    requires
        keys_unique(s@),
    ensures
        r is Some <==> assoc_map(s@).contains_key(key@),
        r is Some ==> *r->0 == assoc_map(s@)[key@],
{
    proof {
        lemma_assoc_map(s@);
    }
    match find_key(s, key) {
        Some(i) => Some(&s[i].1),
        None => None,
    }
}

} // verus!

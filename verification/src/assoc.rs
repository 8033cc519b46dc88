//! Sorted association lists: the keyed containers of the store. Keys are
//! byte strings held in strictly increasing lexicographic order, so every
//! key occurs once and the list denotes a map over the values' views.

use vstd::prelude::*;
use crate::order::{bytes_eq, bytes_lt, lemma_lex_transitive, lemma_lex_trichotomy, lex_lt};

verus! {

/// Keys strictly increase along the list.
pub open spec fn sorted_assoc<T: View>(s: Seq<(Vec<u8>, T)>) -> bool {
    forall|i: int, j: int|
        0 <= i < j < s.len() ==> lex_lt((#[trigger] s[i]).0@, (#[trigger] s[j]).0@)
}

/// The map an association list denotes: each key to its value's view; on
/// duplicate keys the later entry wins, but sorted lists have none.
pub open spec fn assoc_map<T: View>(s: Seq<(Vec<u8>, T)>) -> Map<Seq<u8>, T::V>
    decreases s.len(),
{
    if s.len() == 0 {
        Map::empty()
    } else {
        assoc_map(s.drop_last()).insert(s.last().0@, s.last().1@)
    }
}

/// In a sorted association list, the map holds exactly the pairs that
/// stand at some index.
pub proof fn lemma_assoc_map_index<T: View>(s: Seq<(Vec<u8>, T)>)
    requires
        sorted_assoc(s),
    ensures
        forall|k: Seq<u8>, v: T::V|
            assoc_map(s).contains_pair(k, v) <==> exists|i: int|
                0 <= i < s.len() && (#[trigger] s[i]).0@ == k && s[i].1@ == v,
        forall|k: Seq<u8>|
            assoc_map(s).contains_key(k) <==> exists|i: int|
                0 <= i < s.len() && (#[trigger] s[i]).0@ == k,
    decreases s.len(),
{
    if s.len() > 0 {
        let s0 = s.drop_last();
        let lk = s.last().0@;
        let lv = s.last().1@;
        assert(sorted_assoc(s0)) by {
            assert(forall|i: int| 0 <= i < s0.len() ==> #[trigger] s0[i] == s[i]);
        }
        lemma_assoc_map_index(s0);
        assert forall|i: int| 0 <= i < s0.len() implies (#[trigger] s0[i]).0@ != lk by {
            assert(s0[i] == s[i]);
            assert(lex_lt(s[i].0@, lk));
            lemma_lex_trichotomy(s[i].0@, lk);
        }
        assert(assoc_map(s) == assoc_map(s0).insert(lk, lv));
        assert forall|k: Seq<u8>, v: T::V| assoc_map(s).contains_pair(k, v) implies exists|i: int|
            0 <= i < s.len() && (#[trigger] s[i]).0@ == k && s[i].1@ == v by {
            if k == lk {
                assert(s[s.len() - 1].0@ == k && s[s.len() - 1].1@ == v);
            } else {
                assert(assoc_map(s0).contains_pair(k, v));
                let i = choose|i: int|
                    0 <= i < s0.len() && (#[trigger] s0[i]).0@ == k && s0[i].1@ == v;
                assert(s[i].0@ == k && s[i].1@ == v);
            }
        }
        assert forall|k: Seq<u8>, v: T::V|
            (exists|i: int|
                0 <= i < s.len() && (#[trigger] s[i]).0@ == k && s[i].1@ == v) implies assoc_map(
            s,
        ).contains_pair(k, v) by {
            let i = choose|i: int|
                0 <= i < s.len() && (#[trigger] s[i]).0@ == k && s[i].1@ == v;
            if i == s.len() - 1 {
            } else {
                assert(s0[i].0@ == k && s0[i].1@ == v);
                assert(assoc_map(s0).contains_pair(k, v));
                assert(s0[i].0@ != lk);
            }
        }
        assert forall|k: Seq<u8>| assoc_map(s).contains_key(k) implies exists|i: int|
            0 <= i < s.len() && (#[trigger] s[i]).0@ == k by {
            if k == lk {
                assert(s[s.len() - 1].0@ == k);
            } else {
                let i = choose|i: int| 0 <= i < s0.len() && (#[trigger] s0[i]).0@ == k;
                assert(s[i].0@ == k);
            }
        }
        assert forall|k: Seq<u8>|
            (exists|i: int| 0 <= i < s.len() && (#[trigger] s[i]).0@ == k) implies assoc_map(
            s,
        ).contains_key(k) by {
            let i = choose|i: int| 0 <= i < s.len() && (#[trigger] s[i]).0@ == k;
            if i == s.len() - 1 {
            } else {
                assert(s0[i].0@ == k);
            }
        }
    }
}

/// The entry at any index of a sorted association list is in its map.
pub proof fn lemma_assoc_contains_at<T: View>(s: Seq<(Vec<u8>, T)>, i: int)
    requires
        sorted_assoc(s),
        0 <= i < s.len(),
    ensures
        assoc_map(s).contains_pair(s[i].0@, s[i].1@),
        assoc_map(s).contains_key(s[i].0@),
        assoc_map(s)[s[i].0@] == s[i].1@,
    decreases s.len(),
{
    let s0 = s.drop_last();
    assert(sorted_assoc(s0)) by {
        assert(forall|j: int| 0 <= j < s0.len() ==> #[trigger] s0[j] == s[j]);
    }
    assert(assoc_map(s) == assoc_map(s0).insert(s.last().0@, s.last().1@));
    if i < s.len() - 1 {
        assert(s0[i] == s[i]);
        lemma_assoc_contains_at(s0, i);
        assert(lex_lt(s[i].0@, s.last().0@));
        lemma_lex_trichotomy(s[i].0@, s.last().0@);
    }
}

/// Replacing the value at position `p` keeps the list sorted and updates
/// the map at that entry's key.
pub proof fn lemma_assoc_replace<T: View>(s: Seq<(Vec<u8>, T)>, p: int, kv: Vec<u8>, v: T)
    requires
        sorted_assoc(s),
        0 <= p < s.len(),
        kv@ == s[p].0@,
    ensures
        sorted_assoc(s.update(p, (kv, v))),
        assoc_map(s.update(p, (kv, v))) == assoc_map(s).insert(s[p].0@, v@),
{
    let key = s[p].0@;
    let t = s.update(p, (kv, v));
    assert(sorted_assoc(t)) by {
        assert(forall|i: int| 0 <= i < s.len() ==> (#[trigger] t[i]).0@ == s[i].0@);
    }
    lemma_assoc_map_index(s);
    lemma_assoc_map_index(t);
    assert(assoc_map(t) =~= assoc_map(s).insert(key, v@)) by {
        assert forall|k: Seq<u8>| #[trigger] assoc_map(t).dom().contains(k) implies assoc_map(
            s,
        ).insert(key, v@).dom().contains(k) && assoc_map(t)[k] == assoc_map(s).insert(key, v@)[k]
            by {
            assert(assoc_map(t).contains_key(k));
            let i = choose|i: int| 0 <= i < t.len() && (#[trigger] t[i]).0@ == k;
            let w = assoc_map(t)[k];
            assert(assoc_map(t).contains_pair(k, w));
            let j = choose|j: int| 0 <= j < t.len() && (#[trigger] t[j]).0@ == k && t[j].1@ == w;
            if i != j {
                lemma_lex_trichotomy(t[i].0@, t[j].0@);
                assert(false);
            }
            if i == p {
                assert(w == v@);
            } else {
                lemma_lex_trichotomy(s[i].0@, s[p].0@);
                assert(k != key);
                assert(s[j].0@ == k && s[j].1@ == w);
                assert(assoc_map(s).contains_pair(k, w));
            }
        }
        assert forall|k: Seq<u8>| #[trigger] assoc_map(s).insert(key, v@).dom().contains(
            k,
        ) implies assoc_map(t).dom().contains(k) by {
            if k == key {
                assert(t[p].0@ == k);
            } else {
                let i = choose|i: int| 0 <= i < s.len() && (#[trigger] s[i]).0@ == k;
                assert(t[i].0@ == k);
            }
        }
    }
}

/// Inserting a fresh key at its sorted position keeps the list sorted and
/// adds exactly that pair to the map.
pub proof fn lemma_assoc_insert<T: View>(s: Seq<(Vec<u8>, T)>, p: int, kv: Vec<u8>, v: T)
    requires
        sorted_assoc(s),
        0 <= p <= s.len(),
        forall|i: int| 0 <= i < p ==> lex_lt((#[trigger] s[i]).0@, kv@),
        forall|i: int| p <= i < s.len() ==> lex_lt(kv@, (#[trigger] s[i]).0@),
    ensures
        sorted_assoc(s.insert(p, (kv, v))),
        assoc_map(s.insert(p, (kv, v))) == assoc_map(s).insert(kv@, v@),
{
    let key = kv@;
    let t = s.insert(p, (kv, v));
    s.insert_ensures(p, (kv, v));
    assert(sorted_assoc(t)) by {
        assert forall|i: int, j: int| 0 <= i < j < t.len() implies lex_lt(
            (#[trigger] t[i]).0@,
            (#[trigger] t[j]).0@,
        ) by {
            if i < p {
                assert(t[i] == s[i]);
            } else if i > p {
                assert(t[i] == s[i - 1]);
            }
            if j < p {
                assert(t[j] == s[j]);
            } else if j > p {
                assert(t[j] == s[j - 1]);
            }
        }
    }
    lemma_assoc_map_index(s);
    lemma_assoc_map_index(t);
    assert forall|i: int| 0 <= i < s.len() implies (#[trigger] s[i]).0@ != key by {
        lemma_lex_trichotomy(s[i].0@, key);
    }
    assert(assoc_map(t) =~= assoc_map(s).insert(key, v@)) by {
        assert forall|k: Seq<u8>| #[trigger] assoc_map(t).dom().contains(k) implies assoc_map(
            s,
        ).insert(key, v@).dom().contains(k) && assoc_map(t)[k] == assoc_map(s).insert(key, v@)[k]
            by {
            let w = assoc_map(t)[k];
            assert(assoc_map(t).contains_pair(k, w));
            let j = choose|j: int| 0 <= j < t.len() && (#[trigger] t[j]).0@ == k && t[j].1@ == w;
            if j == p {
                assert(k == key && w == v@);
            } else {
                let jo: int = if j < p {
                    j
                } else {
                    j - 1
                };
                assert(s[jo].0@ == k && s[jo].1@ == w);
                assert(k != key);
                assert(assoc_map(s).contains_pair(k, w));
            }
        }
        assert forall|k: Seq<u8>| #[trigger] assoc_map(s).insert(key, v@).dom().contains(
            k,
        ) implies assoc_map(t).dom().contains(k) by {
            if k == key {
                assert(t[p].0@ == k);
            } else {
                let i = choose|i: int| 0 <= i < s.len() && (#[trigger] s[i]).0@ == k;
                if i < p {
                    assert(t[i].0@ == k);
                } else {
                    assert(t[i + 1].0@ == k);
                }
            }
        }
    }
}

/// Finds `key` in a sorted association list: either its index, or the
/// position where it would be inserted.
pub fn assoc_find<T: View>(s: &Vec<(Vec<u8>, T)>, key: &Vec<u8>) -> (r: (bool, usize))
    requires
        sorted_assoc(s@),
    ensures
        r.0 == assoc_map(s@).contains_key(key@),
        r.0 ==> r.1 < s@.len() && s@[r.1 as int].0@ == key@,
        !r.0 ==> r.1 <= s@.len() && (forall|i: int|
            0 <= i < r.1 ==> lex_lt((#[trigger] s@[i]).0@, key@)) && (forall|i: int|
            r.1 <= i < s@.len() ==> lex_lt(key@, (#[trigger] s@[i]).0@)),
{
    proof {
        lemma_assoc_map_index(s@);
    }
    let mut p: usize = 0;
    while p < s.len() && bytes_lt(&s[p].0, key)
        invariant
            p <= s@.len(),
            forall|i: int| 0 <= i < p ==> lex_lt((#[trigger] s@[i]).0@, key@),
        decreases s@.len() - p,
    {
        p = p + 1;
    }
    if p < s.len() && bytes_eq(&s[p].0, key) {
        (true, p)
    } else {
        proof {
            if p < s@.len() {
                lemma_lex_trichotomy(s@[p as int].0@, key@);
            }
            assert forall|i: int| p <= i < s@.len() implies lex_lt(
                key@,
                (#[trigger] s@[i]).0@,
            ) by {
                if i > p {
                    lemma_lex_transitive(key@, s@[p as int].0@, s@[i].0@);
                }
            }
            if assoc_map(s@).contains_key(key@) {
                let i = choose|i: int| 0 <= i < s@.len() && (#[trigger] s@[i]).0@ == key@;
                if i < p {
                    lemma_lex_trichotomy(s@[i].0@, key@);
                } else {
                    lemma_lex_trichotomy(key@, s@[i].0@);
                }
                assert(false);
            }
        }
        (false, p)
    }
}

} // verus!

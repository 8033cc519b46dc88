//! The certification tree: an ordered set of (asset key, content digest)
//! pairs, aggregated into one root hash, with per-key witnesses.
//!
//! The entries are kept strictly sorted by key, so the root hash is a pure
//! function of the (key, digest) set: two trees holding the same set agree
//! on the root whatever order the keys were inserted in.

use vstd::prelude::*;
use crate::hash_tree::{
    HashTree, contains_leaf, fork_hash, has_leaf, leaf_hash, empty_hash, reconstruct,
    reconstruct_root, spec_empty_bytes, spec_empty_hash, spec_encode_tree, spec_fork_hash,
    spec_leaf_bytes, spec_leaf_hash, spec_pruned_bytes,
};
use crate::order::{bytes_eq, bytes_lt, lemma_lex_transitive, lemma_lex_trichotomy, lex_lt};
use vstd::slice::slice_to_vec;

verus! {

/// The ghost form of the entries: key and digest as byte sequences.
pub type TreeEntrySeq = Seq<(Seq<u8>, Seq<u8>)>;

/// Keys strictly increase along the sequence, so every key occurs once.
pub open spec fn sorted_strict(s: TreeEntrySeq) -> bool {
    forall|i: int, j: int| 0 <= i < j < s.len() ==> lex_lt(#[trigger] s[i].0, #[trigger] s[j].0)
}

/// Every digest in the sequence is 32 bytes long.
pub open spec fn digests_ok(s: TreeEntrySeq) -> bool {
    forall|i: int| 0 <= i < s.len() ==> (#[trigger] s[i].1).len() == 32
}

/// The (key -> digest) map that a sequence of entries denotes; on duplicate
/// keys the later entry wins, but sorted sequences have none.
pub open spec fn entry_map(s: TreeEntrySeq) -> Map<Seq<u8>, Seq<u8>>
    decreases s.len(),
{
    if s.len() == 0 {
        Map::empty()
    } else {
        entry_map(s.drop_last()).insert(s.last().0, s.last().1)
    }
}

/// The root hash of a sequence of entries: a balanced Merkle tree over the
/// sequence, split at the middle.
pub open spec fn spec_root_of(s: TreeEntrySeq) -> Seq<u8>
    decreases s.len(),
{
    if s.len() == 0 {
        spec_empty_hash()
    } else if s.len() == 1 {
        spec_leaf_hash(s[0].0, s[0].1)
    } else {
        spec_fork_hash(
            spec_root_of(s.take(s.len() as int / 2)),
            spec_root_of(s.skip(s.len() as int / 2)),
        )
    }
}

/// A witness is accepted for (root, key, digest) when it recomputes exactly
/// that root and shows exactly that key with that digest.
pub open spec fn spec_verify(
    root_hash: Seq<u8>,
    key: Seq<u8>,
    digest: Seq<u8>,
    t: HashTree,
) -> bool {
    reconstruct(t) == root_hash && contains_leaf(t, key, digest)
}

/// A subrange of a strictly sorted sequence is strictly sorted.
pub proof fn lemma_sorted_subrange(s: TreeEntrySeq, lo: int, hi: int)
    requires
        sorted_strict(s),
        0 <= lo <= hi <= s.len(),
    ensures
        sorted_strict(s.subrange(lo, hi)),
{
    assert forall|i: int, j: int| 0 <= i < j < s.subrange(lo, hi).len() implies lex_lt(
        #[trigger] s.subrange(lo, hi)[i].0,
        #[trigger] s.subrange(lo, hi)[j].0,
    ) by {
        assert(s.subrange(lo, hi)[i] == s[lo + i]);
        assert(s.subrange(lo, hi)[j] == s[lo + j]);
    }
}

/// In a strictly sorted sequence, the entry map holds exactly the pairs
/// that stand at some index.
pub proof fn lemma_entry_map_index(s: TreeEntrySeq)
    requires
        sorted_strict(s),
    ensures
        forall|k: Seq<u8>, d: Seq<u8>|
            entry_map(s).contains_pair(k, d) <==> exists|i: int|
                0 <= i < s.len() && #[trigger] s[i] == (k, d),
        forall|k: Seq<u8>|
            entry_map(s).contains_key(k) <==> exists|i: int|
                0 <= i < s.len() && (#[trigger] s[i]).0 == k,
    decreases s.len(),
{
    if s.len() > 0 {
        let s0 = s.drop_last();
        let lk = s.last().0;
        let ld = s.last().1;
        assert(sorted_strict(s0)) by {
            assert(forall|i: int, j: int|
                0 <= i < j < s0.len() ==> #[trigger] s0[i] == s[i] && #[trigger] s0[j] == s[j]);
        }
        lemma_entry_map_index(s0);
        assert forall|i: int| 0 <= i < s0.len() implies (#[trigger] s0[i]).0 != lk by {
            assert(s0[i] == s[i]);
            assert(lex_lt(s[i].0, lk));
            lemma_lex_trichotomy(s[i].0, lk);
        }
        assert(entry_map(s) == entry_map(s0).insert(lk, ld));
        assert forall|k: Seq<u8>, d: Seq<u8>| entry_map(s).contains_pair(k, d) implies exists|
            i: int,
        |
            0 <= i < s.len() && #[trigger] s[i] == (k, d) by {
            if k == lk {
                assert(s[s.len() - 1] == (k, d));
            } else {
                assert(entry_map(s0).contains_pair(k, d));
                let i = choose|i: int| 0 <= i < s0.len() && #[trigger] s0[i] == (k, d);
                assert(s[i] == (k, d));
            }
        }
        assert forall|k: Seq<u8>, d: Seq<u8>|
            (exists|i: int| 0 <= i < s.len() && #[trigger] s[i] == (k, d)) implies entry_map(
            s,
        ).contains_pair(k, d) by {
            let i = choose|i: int| 0 <= i < s.len() && #[trigger] s[i] == (k, d);
            if i == s.len() - 1 {
                assert(k == lk && d == ld);
            } else {
                assert(s0[i] == (k, d));
                assert(entry_map(s0).contains_pair(k, d));
                assert(s0[i].0 != lk);
            }
        }
        assert forall|k: Seq<u8>| entry_map(s).contains_key(k) implies exists|i: int|
            0 <= i < s.len() && (#[trigger] s[i]).0 == k by {
            if k == lk {
                assert(s[s.len() - 1].0 == k);
            } else {
                let i = choose|i: int| 0 <= i < s0.len() && (#[trigger] s0[i]).0 == k;
                assert(s[i].0 == k);
            }
        }
        assert forall|k: Seq<u8>|
            (exists|i: int| 0 <= i < s.len() && (#[trigger] s[i]).0 == k) implies entry_map(
            s,
        ).contains_key(k) by {
            let i = choose|i: int| 0 <= i < s.len() && (#[trigger] s[i]).0 == k;
            if i == s.len() - 1 {
            } else {
                assert(s0[i].0 == k);
            }
        }
    }
}

/// The entry at any index of a sorted sequence is in its map.
pub proof fn lemma_entry_map_contains_at(s: TreeEntrySeq, i: int)
    requires
        sorted_strict(s),
        0 <= i < s.len(),
    ensures
        entry_map(s).contains_pair(s[i].0, s[i].1),
        entry_map(s).contains_key(s[i].0),
        entry_map(s)[s[i].0] == s[i].1,
{
    lemma_entry_map_index(s);
    assert(s[i] == (s[i].0, s[i].1));
    assert(exists|j: int| 0 <= j < s.len() && #[trigger] s[j] == (s[i].0, s[i].1));
    assert(entry_map(s).contains_pair(s[i].0, s[i].1));
    assert(entry_map(s)[s[i].0] == s[i].1);
}

/// Two strictly sorted sequences that denote the same map are the same
/// sequence.
pub proof fn lemma_sorted_same_map_same_seq(a: TreeEntrySeq, b: TreeEntrySeq)
    requires
        sorted_strict(a),
        sorted_strict(b),
        entry_map(a) == entry_map(b),
    ensures
        a == b,
    decreases a.len(),
{
    lemma_entry_map_index(a);
    lemma_entry_map_index(b);
    if a.len() == 0 {
        if b.len() > 0 {
            assert(b[b.len() - 1].0 == b.last().0);
            assert(entry_map(b).contains_key(b.last().0));
            assert(false);
        }
        assert(a =~= b);
    } else {
        if b.len() == 0 {
            assert(entry_map(a).contains_key(a.last().0));
            assert(false);
        }
        // The last key of each sequence is its lex-greatest key; equal maps
        // force the last entries to agree.
        let ka = a.last().0;
        let kb = b.last().0;
        assert(entry_map(a).contains_key(ka));
        assert(entry_map(b).contains_key(kb));
        if ka != kb {
            let ia = choose|i: int| 0 <= i < a.len() && (#[trigger] a[i]).0 == kb;
            assert(lex_lt(kb, ka)) by {
                assert(ia < a.len() - 1);
                assert(lex_lt(a[ia].0, a[a.len() - 1].0));
            }
            let ib = choose|i: int| 0 <= i < b.len() && (#[trigger] b[i]).0 == ka;
            assert(lex_lt(ka, kb)) by {
                assert(ib < b.len() - 1);
                assert(lex_lt(b[ib].0, b[b.len() - 1].0));
            }
            lemma_lex_trichotomy(ka, kb);
            assert(false);
        }
        assert(entry_map(a).contains_pair(ka, a.last().1)) by {
            assert(a[a.len() - 1] == (ka, a.last().1));
        }
        assert(entry_map(b).contains_pair(kb, b.last().1)) by {
            assert(b[b.len() - 1] == (kb, b.last().1));
        }
        assert(a.last().1 == b.last().1);
        let a0 = a.drop_last();
        let b0 = b.drop_last();
        assert(sorted_strict(a0) && sorted_strict(b0)) by {
            assert(forall|i: int|
                0 <= i < a0.len() ==> #[trigger] a0[i] == a[i]);
            assert(forall|i: int|
                0 <= i < b0.len() ==> #[trigger] b0[i] == b[i]);
        }
        lemma_entry_map_index(a0);
        lemma_entry_map_index(b0);
        assert(entry_map(a0) =~= entry_map(b0)) by {
            assert forall|k: Seq<u8>| #[trigger] entry_map(a0).dom().contains(k) implies entry_map(
                b0,
            ).dom().contains(k) && entry_map(b0)[k] == entry_map(a0)[k] by {
                lemma_drop_last_map_step(a, k);
                lemma_drop_last_map_step(b, k);
                assert(entry_map(a).contains_key(k));
            }
            assert forall|k: Seq<u8>| #[trigger] entry_map(b0).dom().contains(k) implies entry_map(
                a0,
            ).dom().contains(k) by {
                lemma_drop_last_map_step(b, k);
                lemma_drop_last_map_step(a, k);
                assert(entry_map(b).contains_key(k));
            }
            assert(entry_map(a0).dom() =~= entry_map(b0).dom());
        }
        lemma_sorted_same_map_same_seq(a0, b0);
        assert(a =~= b) by {
            assert(forall|i: int| 0 <= i < a.len() - 1 ==> #[trigger] a[i] == a0[i] && #[trigger] b[i] == b0[i]);
            assert(a[a.len() - 1] == (ka, a.last().1));
            assert(b[b.len() - 1] == (kb, b.last().1));
        }
    }
}

/// Relates the map of a sorted sequence to the map of the sequence without
/// its last entry: on every key but the last one the two agree, and the
/// last key is absent from the shorter map.
proof fn lemma_drop_last_map_step(s: TreeEntrySeq, k: Seq<u8>)
    requires
        sorted_strict(s),
        s.len() > 0,
    ensures
        !entry_map(s.drop_last()).contains_key(s.last().0),
        k != s.last().0 ==> (entry_map(s.drop_last()).contains_key(k) <==> entry_map(
            s,
        ).contains_key(k)),
        k != s.last().0 && entry_map(s).contains_key(k) ==> entry_map(s.drop_last())[k]
            == entry_map(s)[k],
{
    let s0 = s.drop_last();
    assert(sorted_strict(s0)) by {
        assert(forall|i: int| 0 <= i < s0.len() ==> #[trigger] s0[i] == s[i]);
    }
    lemma_entry_map_index(s0);
    if entry_map(s0).contains_key(s.last().0) {
        let i = choose|i: int| 0 <= i < s0.len() && (#[trigger] s0[i]).0 == s.last().0;
        assert(s0[i] == s[i]);
        assert(lex_lt(s[i].0, s[s.len() - 1].0));
        lemma_lex_trichotomy(s[i].0, s.last().0);
    }
    assert(entry_map(s) == entry_map(s0).insert(s.last().0, s.last().1));
}

/// Replacing the digest at position `p` keeps the sequence sorted and
/// updates the map at that entry's key.
proof fn lemma_replace_entry(s: TreeEntrySeq, p: int, d: Seq<u8>)
    requires
        sorted_strict(s),
        0 <= p < s.len(),
    ensures
        sorted_strict(s.update(p, (s[p].0, d))),
        entry_map(s.update(p, (s[p].0, d))) == entry_map(s).insert(s[p].0, d),
{
    let key = s[p].0;
    let t = s.update(p, (key, d));
    assert(sorted_strict(t)) by {
        assert(forall|i: int| 0 <= i < s.len() ==> (#[trigger] t[i]).0 == s[i].0);
    }
    lemma_entry_map_index(s);
    lemma_entry_map_index(t);
    assert(entry_map(t) =~= entry_map(s).insert(key, d)) by {
        assert forall|k: Seq<u8>| #[trigger] entry_map(t).dom().contains(k) implies entry_map(
            s,
        ).insert(key, d).dom().contains(k) && entry_map(t)[k] == entry_map(s).insert(key, d)[k] by {
            assert(entry_map(t).contains_key(k));
            let i = choose|i: int| 0 <= i < t.len() && (#[trigger] t[i]).0 == k;
            let v = entry_map(t)[k];
            assert(entry_map(t).contains_pair(k, v));
            let j = choose|j: int| 0 <= j < t.len() && #[trigger] t[j] == (k, v);
            if i != j {
                lemma_lex_trichotomy(t[i].0, t[j].0);
                assert(false);
            }
            if i == p {
                assert(v == d);
            } else {
                lemma_lex_trichotomy(s[i].0, s[p].0);
                assert(k != key);
                assert(s[j] == (k, v));
                assert(entry_map(s).contains_pair(k, v));
            }
        }
        assert forall|k: Seq<u8>| #[trigger] entry_map(s).insert(key, d).dom().contains(
            k,
        ) implies entry_map(t).dom().contains(k) by {
            if k == key {
                assert(t[p].0 == k);
            } else {
                let i = choose|i: int| 0 <= i < s.len() && (#[trigger] s[i]).0 == k;
                assert(t[i].0 == k);
            }
        }
    }
}

/// Inserting a fresh key at its sorted position keeps the sequence sorted
/// and adds exactly that pair to the map.
#[verifier::rlimit(100)]
proof fn lemma_insert_entry(s: TreeEntrySeq, p: int, key: Seq<u8>, d: Seq<u8>)
    requires
        sorted_strict(s),
        0 <= p <= s.len(),
        forall|i: int| 0 <= i < p ==> lex_lt((#[trigger] s[i]).0, key),
        forall|i: int| p <= i < s.len() ==> lex_lt(key, (#[trigger] s[i]).0),
    ensures
        sorted_strict(s.insert(p, (key, d))),
        entry_map(s.insert(p, (key, d))) == entry_map(s).insert(key, d),
{
    let t = s.insert(p, (key, d));
    s.insert_ensures(p, (key, d));
    assert(sorted_strict(t)) by {
        assert forall|i: int, j: int| 0 <= i < j < t.len() implies lex_lt(
            (#[trigger] t[i]).0,
            (#[trigger] t[j]).0,
        ) by {
            if i < p {
                assert(t[i] == s[i]);
            } else if i > p {
                assert(t[i] == s[i - 1]);
            }
            if j < p {
                assert(t[j] == s[j]);
            } else if j > p {
                assert(t[j] == s[j - 1]);
            }
        }
    }
    lemma_entry_map_index(s);
    lemma_entry_map_index(t);
    assert forall|i: int| 0 <= i < s.len() implies (#[trigger] s[i]).0 != key by {
        lemma_lex_trichotomy(s[i].0, key);
    }
    assert(entry_map(t) =~= entry_map(s).insert(key, d)) by {
        assert forall|k: Seq<u8>| #[trigger] entry_map(t).dom().contains(k) implies entry_map(
            s,
        ).insert(key, d).dom().contains(k) && entry_map(t)[k] == entry_map(s).insert(key, d)[k] by {
            let v = entry_map(t)[k];
            assert(entry_map(t).contains_pair(k, v));
            let j = choose|j: int| 0 <= j < t.len() && #[trigger] t[j] == (k, v);
            if j == p {
                assert(k == key && v == d);
            } else {
                let jo: int = if j < p { j } else { j - 1 };
                assert(s[jo] == (k, v));
                assert(k != key);
                assert(entry_map(s).contains_pair(k, v));
            }
        }
        assert forall|k: Seq<u8>| #[trigger] entry_map(s).insert(key, d).dom().contains(
            k,
        ) implies entry_map(t).dom().contains(k) by {
            if k == key {
                assert(t[p].0 == k);
            } else {
                let i = choose|i: int| 0 <= i < s.len() && (#[trigger] s[i]).0 == k;
                if i < p {
                    assert(t[i].0 == k);
                } else {
                    assert(t[i + 1].0 == k);
                }
            }
        }
    }
}

/// The certification tree: entries strictly sorted by key, one 32-byte
/// content digest per key.
pub struct CertificationTree {
    entries: Vec<(Vec<u8>, Vec<u8>)>,
}

impl View for CertificationTree {
    type V = TreeEntrySeq;

    closed spec fn view(&self) -> TreeEntrySeq {
        Seq::new(self.entries@.len() as nat, |i: int| (self.entries@[i].0@, self.entries@[i].1@))
    }
}

impl CertificationTree {
    /// Entries strictly sorted, every digest 32 bytes.
    pub open spec fn well_formed(&self) -> bool {
        sorted_strict(self@) && digests_ok(self@)
    }

    /// An empty tree.
    pub fn new() -> (t: Self)
        ensures
            t.well_formed(),
            t@ =~= Seq::<(Seq<u8>, Seq<u8>)>::empty(),
            entry_map(t@) =~= Map::<Seq<u8>, Seq<u8>>::empty(),
    {
        CertificationTree { entries: Vec::new() }
    }

    /// How many keys the tree certifies.
    pub fn len(&self) -> (n: usize)
        ensures
            n == self@.len(),
    {
        self.entries.len()
    }

    /// Inserts `key` with `digest`, or replaces the digest of an existing
    /// key; every other entry is untouched.
    pub fn update(&mut self, key: Vec<u8>, digest: Vec<u8>)
        requires
            old(self).well_formed(),
            digest@.len() == 32,
        ensures
            final(self).well_formed(),
            entry_map(final(self)@) == entry_map(old(self)@).insert(key@, digest@),
    {
        let ghost s = self@;
        let mut p: usize = 0;
        while p < self.entries.len() && bytes_lt(&self.entries[p].0, &key)
            invariant
                self == old(self),
                s == self@,
                s.len() == self.entries@.len(),
                p <= s.len(),
                forall|i: int| 0 <= i < p ==> lex_lt((#[trigger] s[i]).0, key@),
            decreases s.len() - p,
        {
            assert(s[p as int] == (self.entries@[p as int].0@, self.entries@[p as int].1@));
            p = p + 1;
        }
        proof {
            if p < s.len() {
                assert(!lex_lt(s[p as int].0, key@));
            }
        }
        if p < self.entries.len() && bytes_eq(&self.entries[p].0, &key) {
            let ghost kp = s[p as int].0;
            self.entries.remove(p);
            self.entries.insert(p, (key, digest));
            proof {
                assert(self@ =~= s.update(p as int, (kp, digest@)));
                lemma_replace_entry(s, p as int, digest@);
                assert(digests_ok(self@)) by {
                    assert(forall|i: int|
                        0 <= i < s.len() && i != p ==> #[trigger] self@[i] == s[i]);
                }
            }
        } else {
            proof {
                if p < s.len() {
                    lemma_lex_trichotomy(s[p as int].0, key@);
                    assert(lex_lt(key@, s[p as int].0));
                }
                assert forall|i: int| p <= i < s.len() implies lex_lt(
                    key@,
                    (#[trigger] s[i]).0,
                ) by {
                    if i > p {
                        lemma_lex_transitive(key@, s[p as int].0, s[i].0);
                    }
                }
            }
            self.entries.insert(p, (key, digest));
            proof {
                assert(self@ =~= s.insert(p as int, (key@, digest@)));
                lemma_insert_entry(s, p as int, key@, digest@);
                assert(digests_ok(self@)) by {
                    assert forall|i: int| 0 <= i < self@.len() implies (#[trigger] self@[i]).1.len()
                        == 32 by {
                        if i < p {
                            assert(self@[i] == s[i]);
                        } else if i > p {
                            assert(self@[i] == s[i - 1]);
                        }
                    }
                }
            }
        }
    }

    /// Looks up the digest certified for `key`.
    pub fn get(&self, key: &Vec<u8>) -> (r: Option<&Vec<u8>>)
        requires
            self.well_formed(),
        ensures
            match r {
                Some(d) => entry_map(self@).contains_pair(key@, d@),
                None => !entry_map(self@).contains_key(key@),
            },
    {
        proof {
            lemma_entry_map_index(self@);
        }
        let mut i: usize = 0;
        while i < self.entries.len()
            invariant
                self.well_formed(),
                i <= self@.len(),
                self@.len() == self.entries@.len(),
                forall|i2: int|
                    0 <= i2 < self@.len() ==> #[trigger] self@[i2] == (self.entries@[i2].0@, self
                        .entries@[i2].1@),
                forall|j: int| 0 <= j < i ==> (#[trigger] self@[j]).0 != key@,
            decreases self@.len() - i,
        {
            if bytes_eq(&self.entries[i].0, key) {
                proof {
                    assert(self@[i as int] == (key@, self.entries@[i as int].1@));
                    lemma_entry_map_contains_at(self@, i as int);
                }
                return Some(&self.entries[i].1);
            }
            i = i + 1;
        }
        proof {
            if entry_map(self@).contains_key(key@) {
                let j = choose|j: int| 0 <= j < self@.len() && (#[trigger] self@[j]).0 == key@;
                assert(false);
            }
        }
        None
    }

    /// Computes the root hash of the entries in `[lo, hi)`.
    fn root_of_range(&self, lo: usize, hi: usize) -> (r: Vec<u8>)
        requires
            lo <= hi <= self@.len(),
        ensures
            r@ == spec_root_of(self@.subrange(lo as int, hi as int)),
            r@.len() == 32,
        decreases hi - lo,
    {
        let ghost sub = self@.subrange(lo as int, hi as int);
        if hi == lo {
            empty_hash()
        } else if hi - lo == 1 {
            proof {
                assert(sub[0] == self@[lo as int]);
                assert(self@[lo as int] == (self.entries@[lo as int].0@, self.entries@[lo as int].1@));
            }
            leaf_hash(&self.entries[lo].0, &self.entries[lo].1)
        } else {
            let mid = lo + (hi - lo) / 2;
            let l = self.root_of_range(lo, mid);
            let r = self.root_of_range(mid, hi);
            proof {
                assert(sub.take(sub.len() as int / 2) =~= self@.subrange(lo as int, mid as int));
                assert(sub.skip(sub.len() as int / 2) =~= self@.subrange(mid as int, hi as int));
            }
            fork_hash(&l, &r)
        }
    }

    /// The root hash: a pure function of the (key, digest) set held.
    pub fn root_hash(&self) -> (r: Vec<u8>)
        ensures
            r@ == spec_root_of(self@),
            r@.len() == 32,
    {
        let n = self.entries.len();
        let out = self.root_of_range(0, n);
        proof {
            assert(self@.subrange(0, self@.len() as int) =~= self@);
        }
        out
    }

    /// Builds the witness for `key` over the entries in `[lo, hi)`: the
    /// path to `key`'s position in the clear, everything else pruned.
    fn witness_range(&self, key: &Vec<u8>, lo: usize, hi: usize) -> (t: HashTree)
        requires
            self.well_formed(),
            lo < hi <= self@.len(),
        ensures
            witness_ok(self@.subrange(lo as int, hi as int), key@, t),
        decreases hi - lo,
    {
        let ghost sub = self@.subrange(lo as int, hi as int);
        proof {
            lemma_sorted_subrange(self@, lo as int, hi as int);
            lemma_entry_map_index(sub);
        }
        if hi - lo == 1 {
            let k = slice_to_vec(self.entries[lo].0.as_slice());
            let d = slice_to_vec(self.entries[lo].1.as_slice());
            proof {
                assert(sub[0] == self@[lo as int]);
                assert(self@[lo as int] == (self.entries@[lo as int].0@, self.entries@[lo as int].1@));
            }
            let t = HashTree::Leaf { key: k, digest: d };
            proof {
                assert(entry_map(sub) =~= Map::<Seq<u8>, Seq<u8>>::empty().insert(
                    sub[0].0,
                    sub[0].1,
                )) by {
                    assert(sub.drop_last() =~= Seq::<(Seq<u8>, Seq<u8>)>::empty());
                }
                assert(spec_encode_tree(t) == spec_leaf_bytes(sub[0].0, sub[0].1));
                assert(witness_ok(sub, key@, t));
            }
            t
        } else {
            let mid = lo + (hi - lo) / 2;
            let ghost subl = self@.subrange(lo as int, mid as int);
            let ghost subr = self@.subrange(mid as int, hi as int);
            proof {
                lemma_sorted_subrange(self@, lo as int, mid as int);
                lemma_sorted_subrange(self@, mid as int, hi as int);
                lemma_entry_map_index(subl);
                lemma_entry_map_index(subr);
                assert(sub.take(sub.len() as int / 2) =~= subl);
                assert(sub.skip(sub.len() as int / 2) =~= subr);
                assert(self@[mid as int] == (self.entries@[mid as int].0@, self.entries@[
                    mid as int].1@));
            }
            if bytes_lt(key, &self.entries[mid].0) {
                let left = self.witness_range(key, lo, mid);
                let right_hash = self.root_of_range(mid, hi);
                let t = HashTree::Fork(Box::new(left), Box::new(HashTree::Pruned(right_hash)));
                proof {
                    self.lemma_witness_fork(sub, subl, subr, key@, left, t, lo as int, mid as int,
                        hi as int, true);
                }
                t
            } else {
                let left_hash = self.root_of_range(lo, mid);
                let right = self.witness_range(key, mid, hi);
                let t = HashTree::Fork(Box::new(HashTree::Pruned(left_hash)), Box::new(right));
                proof {
                    self.lemma_witness_fork(sub, subl, subr, key@, right, t, lo as int, mid as int,
                        hi as int, false);
                }
                t
            }
        }
    }

    /// The two fork cases of witness construction share this argument: the
    /// half that holds the key's position keeps its witness properties, the
    /// pruned half contributes only its hash.
    proof fn lemma_witness_fork(
        &self,
        sub: TreeEntrySeq,
        subl: TreeEntrySeq,
        subr: TreeEntrySeq,
        key: Seq<u8>,
        inner: HashTree,
        t: HashTree,
        lo: int,
        mid: int,
        hi: int,
        key_on_left: bool,
    )
        requires
            self.well_formed(),
            0 <= lo < mid < hi <= self@.len(),
            sub == self@.subrange(lo, hi),
            subl == self@.subrange(lo, mid),
            subr == self@.subrange(mid, hi),
            mid - lo == (hi - lo) / 2,
            key_on_left ==> lex_lt(key, self@[mid].0),
            !key_on_left ==> !lex_lt(key, self@[mid].0),
            t is Fork,
            key_on_left ==> witness_ok(subl, key, inner) && *t->Fork_0 == inner && (*t->Fork_1)
                is Pruned && reconstruct(*t->Fork_1) == spec_root_of(subr),
            !key_on_left ==> witness_ok(subr, key, inner) && *t->Fork_1 == inner && (*t->Fork_0)
                is Pruned && reconstruct(*t->Fork_0) == spec_root_of(subl),
        ensures
            witness_ok(sub, key, t),
    {
        lemma_sorted_subrange(self@, lo, hi);
        lemma_sorted_subrange(self@, lo, mid);
        lemma_sorted_subrange(self@, mid, hi);
        lemma_entry_map_index(sub);
        lemma_entry_map_index(subl);
        lemma_entry_map_index(subr);
        assert(sub.take(sub.len() as int / 2) =~= subl);
        assert(sub.skip(sub.len() as int / 2) =~= subr);
        assert(reconstruct(t) == spec_root_of(sub));
        assert(sub[mid - lo] == self@[mid]);
        if key_on_left {
            assert(spec_encode_tree(*t->Fork_1) == spec_pruned_bytes(reconstruct(*t->Fork_1)));
            assert(spec_encode_tree(t) == seq![3u8] + spec_witness_bytes(subl, key)
                + spec_pruned_bytes(spec_root_of(subr)));
        } else {
            assert(spec_encode_tree(*t->Fork_0) == spec_pruned_bytes(reconstruct(*t->Fork_0)));
            assert(spec_encode_tree(t) == seq![3u8] + spec_pruned_bytes(spec_root_of(subl))
                + spec_witness_bytes(subr, key));
        }
        assert(spec_encode_tree(t) == spec_witness_bytes(sub, key));
        let half = if key_on_left {
            subl
        } else {
            subr
        };
        assert forall|k: Seq<u8>, d: Seq<u8>| #[trigger] contains_leaf(t, k, d) implies entry_map(
            sub,
        ).contains_pair(k, d) by {
            assert(contains_leaf(*t->Fork_0, k, d) || contains_leaf(*t->Fork_1, k, d));
            if key_on_left {
                assert(!contains_leaf(*t->Fork_1, k, d));
            } else {
                assert(!contains_leaf(*t->Fork_0, k, d));
            }
            assert(contains_leaf(inner, k, d));
            assert(entry_map(half).contains_pair(k, d));
            let i = choose|i: int| 0 <= i < half.len() && #[trigger] half[i] == (k, d);
            if key_on_left {
                assert(sub[i] == half[i]);
            } else {
                assert(sub[i + (mid - lo)] == half[i]);
            }
            assert(entry_map(sub).contains_pair(k, d));
        }
        if entry_map(sub).contains_key(key) {
            let i = choose|i: int| 0 <= i < sub.len() && (#[trigger] sub[i]).0 == key;
            assert(sub[i] == self@[lo + i]);
            if key_on_left {
                assert(i < mid - lo) by {
                    if i > mid - lo {
                        assert(lex_lt(self@[mid].0, self@[lo + i].0));
                        lemma_lex_transitive(key, self@[mid].0, self@[lo + i].0);
                        lemma_lex_trichotomy(key, self@[lo + i].0);
                    } else if i == mid - lo {
                        lemma_lex_trichotomy(key, self@[mid].0);
                    }
                }
                assert(subl[i] == sub[i]);
                assert(entry_map(subl).contains_key(key));
                let v = entry_map(subl)[key];
                assert(entry_map(subl).contains_pair(key, v));
                let j = choose|j: int| 0 <= j < subl.len() && #[trigger] subl[j] == (key, v);
                assert(sub[j] == subl[j]);
                assert(entry_map(sub).contains_pair(key, v));
                assert(entry_map(sub)[key] == v);
                assert(contains_leaf(t, key, entry_map(sub)[key]));
            } else {
                assert(i >= mid - lo) by {
                    if i < mid - lo {
                        assert(lex_lt(self@[lo + i].0, self@[mid].0));
                        lemma_lex_trichotomy(key, self@[mid].0);
                        lemma_lex_trichotomy(key, self@[lo + i].0);
                        if lex_lt(key, self@[lo + i].0) {
                            lemma_lex_transitive(key, self@[lo + i].0, self@[mid].0);
                        }
                    }
                }
                assert(subr[i - (mid - lo)] == sub[i]);
                assert(entry_map(subr).contains_key(key));
                let v = entry_map(subr)[key];
                assert(entry_map(subr).contains_pair(key, v));
                let j = choose|j: int| 0 <= j < subr.len() && #[trigger] subr[j] == (key, v);
                assert(sub[j + (mid - lo)] == subr[j]);
                assert(entry_map(sub).contains_pair(key, v));
                assert(entry_map(sub)[key] == v);
                assert(contains_leaf(t, key, entry_map(sub)[key]));
            }
        }
    }

    /// Produces the witness for `key`: a pruned tree that recomputes this
    /// tree's root, shows `key`'s digest when the key is certified, and
    /// shows no pair that the tree does not hold — so for an absent key no
    /// digest whatever verifies against it.
    pub fn witness(&self, key: &Vec<u8>) -> (t: HashTree)
        requires
            self.well_formed(),
        ensures
            witness_ok(self@, key@, t),
    {
        let n = self.entries.len();
        if n == 0 {
            proof {
                assert(self@ =~= Seq::<(Seq<u8>, Seq<u8>)>::empty());
                assert(entry_map(self@) =~= Map::<Seq<u8>, Seq<u8>>::empty());
                assert(spec_encode_tree(HashTree::Empty) == spec_witness_bytes(self@, key@));
            }
            HashTree::Empty
        } else {
            let t = self.witness_range(key, 0, n);
            proof {
                assert(self@.subrange(0, self@.len() as int) =~= self@);
            }
            t
        }
    }
}

/// The canonical serialized witness for `key` over a sorted entry
/// sequence: the path to `key`'s position follows the same balanced split
/// as the root hash, every other subtree appears as its pruned hash. A
/// pure function of the entries and the key, so two trees holding the
/// same (key, digest) set serialize every witness byte-identically.
pub open spec fn spec_witness_bytes(s: TreeEntrySeq, key: Seq<u8>) -> Seq<u8>
    decreases s.len(),
{
    if s.len() == 0 {
        spec_empty_bytes()
    } else if s.len() == 1 {
        spec_leaf_bytes(s[0].0, s[0].1)
    } else {
        let mid = s.len() as int / 2;
        if lex_lt(key, s[mid].0) {
            seq![3u8] + spec_witness_bytes(s.take(mid), key) + spec_pruned_bytes(
                spec_root_of(s.skip(mid)),
            )
        } else {
            seq![3u8] + spec_pruned_bytes(spec_root_of(s.take(mid))) + spec_witness_bytes(
                s.skip(mid),
                key,
            )
        }
    }
}

/// What a witness for `key` promises over the entries it was drawn from:
/// it recomputes the root, it shows only pairs the tree really holds, it
/// shows `key`'s own digest whenever `key` is certified, and it serializes
/// to exactly the canonical witness bytes of (entries, key).
pub open spec fn witness_ok(s: TreeEntrySeq, key: Seq<u8>, t: HashTree) -> bool {
    &&& reconstruct(t) == spec_root_of(s)
    &&& forall|k: Seq<u8>, d: Seq<u8>| #[trigger] contains_leaf(t, k, d) ==> entry_map(
        s,
    ).contains_pair(k, d)
    &&& entry_map(s).contains_key(key) ==> contains_leaf(t, key, entry_map(s)[key])
    &&& spec_encode_tree(t) == spec_witness_bytes(s, key)
}

/// Checks a witness: it must recompute exactly `root_hash` and show exactly
/// `key` with `digest`.
pub fn verify(root_hash: &Vec<u8>, key: &Vec<u8>, digest: &Vec<u8>, w: &HashTree) -> (r: bool)
    ensures
        r == spec_verify(root_hash@, key@, digest@, *w),
{
    let rc = reconstruct_root(w);
    let ok = bytes_eq(&rc, root_hash);
    ok && has_leaf(w, key, digest)
}

/// Certification consistency: a witness drawn for a certified key verifies
/// against the tree's root hash with that key's certified digest.
pub proof fn lemma_witness_verifies(s: TreeEntrySeq, key: Seq<u8>, t: HashTree)
    requires
        entry_map(s).contains_key(key),
        witness_ok(s, key, t),
    ensures
        spec_verify(spec_root_of(s), key, entry_map(s)[key], t),
{
}

/// Exclusion: a witness drawn for a key the tree does not hold verifies
/// with no digest at all against the tree's root hash — nor any other root.
pub proof fn lemma_absent_key_never_verifies(s: TreeEntrySeq, key: Seq<u8>, t: HashTree)
    requires
        !entry_map(s).contains_key(key),
        witness_ok(s, key, t),
    ensures
        forall|root: Seq<u8>, d: Seq<u8>| !spec_verify(root, key, d, t),
{
    assert forall|root: Seq<u8>, d: Seq<u8>| !spec_verify(root, key, d, t) by {
        if contains_leaf(t, key, d) {
            assert(entry_map(s).contains_pair(key, d));
        }
    }
}

/// Root determinism: two well-formed trees holding the same (key, digest)
/// map have the same root hash, whatever order their keys were inserted in.
pub proof fn lemma_root_determined_by_entries(a: TreeEntrySeq, b: TreeEntrySeq)
    requires
        sorted_strict(a),
        sorted_strict(b),
        entry_map(a) == entry_map(b),
    ensures
        spec_root_of(a) == spec_root_of(b),
{
    lemma_sorted_same_map_same_seq(a, b);
}

} // verus!

//! The web chain's store of bytes already read this session: keyed by a chain index key, bounded
//! by the total number of bytes held rather than by a count of entries, and evicted
//! least-recently-used.
//!
//! Bytes and not entries because the entries are game files whose sizes span four orders of
//! magnitude: a 4 KB emblem tile and a 30 MB terrain read cannot share one budget expressed as a
//! number of slots. [`READ_CACHE_ENTRY_MAX`] keeps a single large read from sweeping the small hot
//! set out on its way through — the repeats this cache exists for are all small.
//!
//! The entries are held in recency order, least recently used first, so "evict the least recently
//! used" is "drop from the front" and a use moves an entry to the back.
use vstd::prelude::*;

verus! {

/// Total retained bytes: 64 MiB against a measured hot set of a few MB.
pub const READ_CACHE_BUDGET: usize = 67108864;

/// Per-entry ceiling: anything larger is read straight through and never stored.
pub const READ_CACHE_ENTRY_MAX: usize = 4194304;

/// One cached read as the contracts see it: its key and its bytes.
pub type CachedRead = (Seq<char>, Seq<u8>);

/// The bytes held by a sequence of cached reads.
pub open spec fn total_bytes(s: Seq<CachedRead>) -> nat
    decreases s.len(),
{
    if s.len() == 0 {
        0
    } else {
        s[0].1.len() + total_bytes(s.drop_first())
    }
}

/// Whether some entry of `s` is stored under `key`.
pub open spec fn has_key(s: Seq<CachedRead>, key: Seq<char>) -> bool {
    exists|i: int| 0 <= i < s.len() && s[i].0 == key
}

/// The position of `key` in `s` (meaningful when [`has_key`] holds).
pub open spec fn key_position(s: Seq<CachedRead>, key: Seq<char>) -> int {
    choose|i: int| 0 <= i < s.len() && s[i].0 == key
}

/// No key occurs twice.
pub open spec fn keys_unique(s: Seq<CachedRead>) -> bool {
    forall|i: int, j: int| 0 <= i < s.len() && 0 <= j < s.len() && i != j ==> s[i].0 != s[j].0
}

/// `s` with the entry for `key` taken out, if there is one.
pub open spec fn drop_key(s: Seq<CachedRead>, key: Seq<char>) -> Seq<CachedRead> {
    if has_key(s, key) {
        s.remove(key_position(s, key))
    } else {
        s
    }
}

/// `s` with the entry for `key` moved to the most-recently-used end, if there is one.
pub open spec fn touch(s: Seq<CachedRead>, key: Seq<char>) -> Seq<CachedRead> {
    if has_key(s, key) {
        s.remove(key_position(s, key)).push(s[key_position(s, key)])
    } else {
        s
    }
}

/// Least-recently-used eviction: drop entries from the old end until `need` more bytes fit in
/// the budget.
pub open spec fn evict_for(s: Seq<CachedRead>, need: nat) -> Seq<CachedRead>
    decreases s.len(),
{
    if s.len() == 0 || total_bytes(s) + need <= READ_CACHE_BUDGET {
        s
    } else {
        evict_for(s.drop_first(), need)
    }
}

/// The contents after storing `bytes` under `key`, per the cache's rules.
pub open spec fn after_put(s: Seq<CachedRead>, key: Seq<char>, bytes: Seq<u8>) -> Seq<CachedRead> {
    if bytes.len() > READ_CACHE_ENTRY_MAX {
        s
    } else {
        evict_for(drop_key(s, key), bytes.len()).push((key, bytes))
    }
}

/// Bytes keyed by a chain index key, bounded by total size, evicted least-recently-used.
///
/// The entries are kept in a vector in recency order rather than in a string-keyed map with use
/// stamps: eviction walks the entries from the least recently used, and the string-keyed map with
/// a specified view offers no walk over its entries.
pub struct ReadCache {
    /// Least recently used first.
    entries: Vec<(String, Vec<u8>)>,
    /// Sum of the lengths of every stored value.
    bytes: usize,
}

impl View for ReadCache {
    type V = Seq<CachedRead>;

    closed spec fn view(&self) -> Seq<CachedRead> {
        self.entries@.map_values(|e: (String, Vec<u8>)| (e.0@, e.1@))
    }
}

/// A sequence of cached reads that a cache can hold.
pub open spec fn valid_contents(s: Seq<CachedRead>) -> bool {
    &&& keys_unique(s)
    &&& total_bytes(s) <= READ_CACHE_BUDGET
    &&& forall|i: int| 0 <= i < s.len() ==> #[trigger] s[i].1.len() <= READ_CACHE_ENTRY_MAX
}

proof fn lemma_total_push(s: Seq<CachedRead>, e: CachedRead)
    ensures
        total_bytes(s.push(e)) == total_bytes(s) + e.1.len(),
    decreases s.len(),
{
    if s.len() == 0 {
        assert(s.push(e).drop_first() =~= s);
    } else {
        lemma_total_push(s.drop_first(), e);
        assert(s.push(e).drop_first() =~= s.drop_first().push(e));
    }
}

proof fn lemma_total_remove(s: Seq<CachedRead>, i: int)
    requires
        0 <= i < s.len(),
    ensures
        total_bytes(s.remove(i)) + s[i].1.len() == total_bytes(s),
    decreases s.len(),
{
    if i == 0 {
        assert(s.remove(0) =~= s.drop_first());
    } else {
        lemma_total_remove(s.drop_first(), i - 1);
        assert(s.remove(i).drop_first() =~= s.drop_first().remove(i - 1));
    }
}

/// Eviction keeps a suffix of what it is given, and leaves room for `need`.
proof fn lemma_evict_suffix(s: Seq<CachedRead>, need: nat)
    requires
        need <= READ_CACHE_BUDGET,
    ensures
        exists|k: int| 0 <= k <= s.len() && evict_for(s, need) == s.skip(k),
        total_bytes(evict_for(s, need)) + need <= READ_CACHE_BUDGET,
    decreases s.len(),
{
    if s.len() == 0 {
        assert(evict_for(s, need) == s.skip(0));
    } else if total_bytes(s) + need <= READ_CACHE_BUDGET {
        assert(evict_for(s, need) == s.skip(0));
    } else {
        lemma_evict_suffix(s.drop_first(), need);
        let k = choose|k: int|
            0 <= k <= s.drop_first().len() && evict_for(s.drop_first(), need) == s.drop_first().skip(k);
        assert(s.drop_first().skip(k) =~= s.skip(k + 1));
    }
}

/// Eviction never drops the most recently used entry when that entry and `need` fit together.
proof fn lemma_evict_keeps_last(s: Seq<CachedRead>, need: nat)
    requires
        s.len() > 0,
        s.last().1.len() + need <= READ_CACHE_BUDGET,
    ensures
        evict_for(s, need).len() > 0,
        evict_for(s, need).last() == s.last(),
    decreases s.len(),
{
    if s.len() == 1 {
        assert(s.drop_first() =~= Seq::<CachedRead>::empty());
        assert(total_bytes(s.drop_first()) == 0);
        assert(total_bytes(s) == s[0].1.len());
    } else if total_bytes(s) + need <= READ_CACHE_BUDGET {
    } else {
        lemma_evict_keeps_last(s.drop_first(), need);
    }
}

proof fn lemma_skip_unique(s: Seq<CachedRead>, k: int)
    requires
        keys_unique(s),
        0 <= k <= s.len(),
    ensures
        keys_unique(s.skip(k)),
        forall|i: int| 0 <= i < s.skip(k).len() ==> s.skip(k)[i] == s[i + k],
{
}

proof fn lemma_remove_unique(s: Seq<CachedRead>, p: int)
    requires
        keys_unique(s),
        0 <= p < s.len(),
    ensures
        keys_unique(s.remove(p)),
        forall|j: int| 0 <= j < s.remove(p).len() ==> s.remove(p)[j].0 != s[p].0,
{
    assert forall|i: int, j: int|
        0 <= i < s.remove(p).len() && 0 <= j < s.remove(p).len() && i != j implies s.remove(p)[i].0
        != s.remove(p)[j].0 by {
        let ii = if i < p { i } else { i + 1 };
        let jj = if j < p { j } else { j + 1 };
        assert(s.remove(p)[i] == s[ii]);
        assert(s.remove(p)[j] == s[jj]);
    }
    assert forall|j: int| 0 <= j < s.remove(p).len() implies s.remove(p)[j].0 != s[p].0 by {
        let jj = if j < p { j } else { j + 1 };
        assert(s.remove(p)[j] == s[jj]);
    }
}

impl ReadCache {
    /// The cache's internal consistency: the running total matches the stored values and the
    /// contents obey the budget and key rules.
    pub closed spec fn wf(&self) -> bool {
        &&& valid_contents(self@)
        &&& self.bytes == total_bytes(self@)
    }

    /// A consistent cache's contents obey the budget and key rules: each key is held once.
    pub proof fn lemma_wf_valid(&self)
        requires
            self.wf(),
        ensures
            valid_contents(self@),
    {
    }

    /// An empty cache.
    pub fn new() -> (c: Self)
        ensures
            c.wf(),
            valid_contents(c@),
            c@ == Seq::<CachedRead>::empty(),
    {
        let c = ReadCache { entries: Vec::new(), bytes: 0 };
        assert(c@ =~= Seq::<CachedRead>::empty());
        c
    }

    /// Position of `key` among the stored entries, if any.
    fn find(&self, key: &String) -> (r: Option<usize>)
        requires
            self.wf(),
        ensures
            r is None ==> !has_key(self@, key@),
            r matches Some(i) ==> i < self@.len() && self@[i as int].0 == key@ && key_position(
                self@,
                key@,
            ) == i,
    {
        let n = self.entries.len();
        for i in 0..n
            invariant
                n == self.entries@.len(),
                self.wf(),
                forall|j: int| 0 <= j < i ==> self@[j].0 != key@,
        {
            if self.entries[i].0 == *key {
                proof {
                    assert(self@[i as int].0 == key@);
                    let p = key_position(self@, key@);
                    assert(self@[p].0 == key@);
                }
                return Some(i);
            }
        }
        None
    }

    /// Read `key`'s bytes, marking it the most recently used.
    pub fn get(&mut self, key: &str) -> (r: Option<Vec<u8>>)
        requires
            old(self).wf(),
        ensures
            final(self).wf(),
            valid_contents(final(self)@),
            r is Some <==> has_key(old(self)@, key@),
            r matches Some(b) ==> b@ == old(self)@[key_position(old(self)@, key@)].1,
            final(self)@ == touch(old(self)@, key@),
    {
        let k = key.to_owned();
        match self.find(&k) {
            None => None,
            Some(i) => {
                let ghost before = self@;
                let entry = self.entries.remove(i);
                let out = entry.1.clone();
                assert(out@ =~= entry.1@);
                self.entries.push(entry);
                proof {
                    assert(self@ =~= before.remove(i as int).push(before[i as int]));
                    lemma_remove_unique(before, i as int);
                    lemma_total_remove(before, i as int);
                    lemma_total_push(before.remove(i as int), before[i as int]);
                    let s = self@;
                    assert forall|a: int, b: int|
                        0 <= a < s.len() && 0 <= b < s.len() && a != b implies s[a].0 != s[b].0 by {
                        if a < s.len() - 1 && b < s.len() - 1 {
                            assert(s[a] == before.remove(i as int)[a]);
                            assert(s[b] == before.remove(i as int)[b]);
                        } else if a < s.len() - 1 {
                            assert(s[a] == before.remove(i as int)[a]);
                        } else {
                            assert(s[b] == before.remove(i as int)[b]);
                        }
                    }
                    assert forall|j: int| 0 <= j < s.len() implies #[trigger] s[j].1.len()
                        <= READ_CACHE_ENTRY_MAX by {
                        if j < s.len() - 1 {
                            let jj = if j < i { j } else { j + 1 };
                            assert(s[j] == before[jj]);
                        }
                    }
                }
                Some(out)
            },
        }
    }

    /// Store `bytes` under `key` as the most recently used entry, evicting least-recently-used
    /// entries until it fits. A value larger than [`READ_CACHE_ENTRY_MAX`] is not stored at all.
    pub fn put(&mut self, key: String, bytes: &[u8])
        requires
            old(self).wf(),
        ensures
            final(self).wf(),
            valid_contents(final(self)@),
            final(self)@ == after_put(old(self)@, key@, bytes@),
    {
        if bytes.len() > READ_CACHE_ENTRY_MAX {
            return;
        }
        let ghost start = self@;
        match self.find(&key) {
            None => {},
            Some(i) => {
                let ghost before = self@;
                let old_entry = self.entries.remove(i);
                proof {
                    assert(self@ =~= before.remove(i as int));
                    lemma_total_remove(before, i as int);
                    lemma_remove_unique(before, i as int);
                }
                self.bytes = self.bytes - old_entry.1.len();
            },
        }
        let ghost dropped = self@;
        assert(dropped == drop_key(start, key@));
        assert(forall|j: int| 0 <= j < dropped.len() ==> dropped[j].0 != key@) by {
            if has_key(start, key@) {
                lemma_remove_unique(start, key_position(start, key@));
            }
        }
        assert forall|j: int| 0 <= j < dropped.len() implies #[trigger] dropped[j].1.len()
            <= READ_CACHE_ENTRY_MAX by {
            if has_key(start, key@) {
                let p = key_position(start, key@);
                let jj = if j < p { j } else { j + 1 };
                assert(dropped[j] == start[jj]);
            }
        }
        let mut k: Ghost<int> = Ghost(0);
        while self.bytes + bytes.len() > READ_CACHE_BUDGET
            invariant
                0 <= k@ <= dropped.len(),
                self@ == dropped.skip(k@),
                evict_for(dropped, bytes@.len()) == evict_for(self@, bytes@.len()),
                self.bytes == total_bytes(self@),
                total_bytes(self@) <= READ_CACHE_BUDGET,
                bytes@.len() <= READ_CACHE_ENTRY_MAX,
                self.entries@.len() == self@.len(),
            ensures
                0 <= k@ <= dropped.len(),
                self@ == dropped.skip(k@),
                evict_for(dropped, bytes@.len()) == evict_for(self@, bytes@.len()),
                self.bytes == total_bytes(self@),
                total_bytes(self@) + bytes@.len() <= READ_CACHE_BUDGET || self@.len() == 0,
            decreases self@.len(),
        {
            if self.entries.len() == 0 {
                break;
            }
            let ghost before = self@;
            let victim = self.entries.remove(0);
            proof {
                assert(self@ =~= before.drop_first());
                lemma_total_remove(before, 0);
                assert(before.remove(0) =~= before.drop_first());
                assert(dropped.skip(k@ + 1) =~= before.drop_first());
                k@ = k@ + 1;
            }
            self.bytes = self.bytes - victim.1.len();
        }
        proof {
            lemma_evict_suffix(dropped, bytes@.len());
            if self@.len() == 0 {
                assert(total_bytes(self@) == 0);
            }
            assert(evict_for(self@, bytes@.len()) == self@);
        }
        self.bytes = self.bytes + bytes.len();
        let stored = vstd::slice::slice_to_vec(bytes);
        let ghost kept = self@;
        self.entries.push((key, stored));
        proof {
            assert(self@ =~= kept.push((key@, bytes@)));
            lemma_total_push(kept, (key@, bytes@));
            lemma_skip_unique(dropped, k@);
            let s = self@;
            assert forall|a: int, b: int|
                0 <= a < s.len() && 0 <= b < s.len() && a != b implies s[a].0 != s[b].0 by {
                if a < s.len() - 1 && b < s.len() - 1 {
                    assert(s[a] == kept[a]);
                    assert(s[b] == kept[b]);
                } else if a < s.len() - 1 {
                    assert(kept[a] == dropped[a + k@]);
                } else {
                    assert(kept[b] == dropped[b + k@]);
                }
            }
            assert forall|j: int| 0 <= j < s.len() implies #[trigger] s[j].1.len()
                <= READ_CACHE_ENTRY_MAX by {
                if j < s.len() - 1 {
                    assert(kept[j] == dropped[j + k@]);
                }
            }
        }
    }
}

/// **What a read gives back of a write.** Storing bytes no larger than the entry ceiling and then
/// reading the same key answers exactly those bytes.
pub proof fn law_get_after_put(s: Seq<CachedRead>, key: Seq<char>, bytes: Seq<u8>)
    requires
        valid_contents(s),
        bytes.len() <= READ_CACHE_ENTRY_MAX,
    ensures
        has_key(after_put(s, key, bytes), key),
        after_put(s, key, bytes)[key_position(after_put(s, key, bytes), key)].1 == bytes,
{
    let t = after_put(s, key, bytes);
    let d = drop_key(s, key);
    let last = t.len() - 1;
    assert(t[last] == (key, bytes));
    assert(has_key(t, key));
    let p = key_position(t, key);
    if p != last {
        // `p` sits in the evicted-down remainder, which no longer holds `key`.
        if has_key(s, key) {
            lemma_remove_unique(s, key_position(s, key));
        }
        lemma_evict_suffix(d, bytes.len());
        let k = choose|k: int| 0 <= k <= d.len() && evict_for(d, bytes.len()) == d.skip(k);
        assert(t[p] == d[p + k]);
    }
}

/// **The least-recently-used rule protects the newest entry.** Storing under a different key never
/// evicts the entry used most recently before the store.
pub proof fn law_put_keeps_most_recent(s: Seq<CachedRead>, key: Seq<char>, bytes: Seq<u8>)
    requires
        valid_contents(s),
        s.len() > 0,
        s.last().0 != key,
    ensures
        has_key(after_put(s, key, bytes), s.last().0),
{
    if bytes.len() <= READ_CACHE_ENTRY_MAX {
        let d = drop_key(s, key);
        assert(d.len() > 0 && d.last() == s.last()) by {
            if has_key(s, key) {
                let p = key_position(s, key);
                assert(p != s.len() - 1);
                assert(d.last() == s[s.len() - 1]);
            }
        }
        assert(d.last().1.len() <= READ_CACHE_ENTRY_MAX) by {
            assert(s[s.len() - 1].1.len() <= READ_CACHE_ENTRY_MAX);
        }
        lemma_evict_keeps_last(d, bytes.len());
        let e = evict_for(d, bytes.len());
        let t = after_put(s, key, bytes);
        assert(t[e.len() - 1] == s.last());
    } else {
        assert(s[s.len() - 1] == s.last());
    }
}

/// **A read reorders and never changes what is held.** After `get`, every key is held exactly when
/// it was held before, with the same bytes.
pub proof fn law_touch_keeps_contents(s: Seq<CachedRead>, key: Seq<char>, other: Seq<char>)
    requires
        valid_contents(s),
    ensures
        has_key(touch(s, key), other) == has_key(s, other),
        has_key(s, other) ==> touch(s, key)[key_position(touch(s, key), other)].1 == s[key_position(
            s,
            other,
        )].1,
{
    if has_key(s, key) {
        let p = key_position(s, key);
        let t = touch(s, key);
        let r = s.remove(p);
        lemma_remove_unique(s, p);
        if has_key(s, other) {
            let q = key_position(s, other);
            let tq = if q == p { t.len() - 1 } else if q < p { q } else { q - 1 };
            assert(t[tq] == s[q]);
            assert(has_key(t, other));
            let tp = key_position(t, other);
            let sp = if tp == t.len() - 1 { p } else if tp < p { tp } else { tp + 1 };
            assert(t[tp] == s[sp]);
        }
        if has_key(t, other) {
            let tp = key_position(t, other);
            let sp = if tp == t.len() - 1 { p } else if tp < p { tp } else { tp + 1 };
            assert(t[tp] == s[sp]);
        }
    }
}

} // verus!

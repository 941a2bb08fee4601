//! The waiter registry for transactions: a mapping from a 32-byte
//! transaction hash to the ordered bucket of waiters pending for it at one
//! confirmation level.
//!
//! The mapping is kept as a vector of entries with pairwise distinct keys;
//! its mathematical value is a `Map` from the hash (as a byte sequence) to
//! the bucket (as a sequence of waiters).  Buckets are never empty and
//! never hold more than [`crate::MAX_LISTENERS_PER_ENTITY`] waiters.

use vstd::prelude::*;

use crate::bucket_or_empty;
use crate::channel::TxSender;
use crate::MAX_LISTENERS_PER_ENTITY;

verus! {

struct TxEntry {
    key: [u8; 32],
    waiters: Vec<TxSender>,
}

/// The buckets of pending transaction waiters at one confirmation level.
pub struct TxSubs {
    entries: Vec<TxEntry>,
}

spec fn tx_map_of(s: Seq<TxEntry>) -> Map<Seq<u8>, Seq<TxSender>>
    decreases s.len(),
{
    if s.len() == 0 {
        Map::empty()
    } else {
        tx_map_of(s.drop_last()).insert(s.last().key@, s.last().waiters@)
    }
}

spec fn tx_entries_wf(s: Seq<TxEntry>) -> bool {
    &&& (forall|i: int, j: int| 0 <= i < j < s.len() ==> s[i].key@ != s[j].key@)
    &&& (forall|i: int|
        0 <= i < s.len() ==> 1 <= #[trigger] s[i].waiters@.len()
            <= MAX_LISTENERS_PER_ENTITY as int)
}

proof fn lemma_tx_map_of_contains(s: Seq<TxEntry>, k: Seq<u8>)
    ensures
        tx_map_of(s).contains_key(k) <==> (exists|i: int| 0 <= i < s.len() && s[i].key@ == k),
    decreases s.len(),
{
    if s.len() == 0 {
    } else {
        lemma_tx_map_of_contains(s.drop_last(), k);
        if s.last().key@ == k {
            assert(s[s.len() - 1].key@ == k);
        } else {
            if tx_map_of(s).contains_key(k) {
                let i = choose|i: int| 0 <= i < s.drop_last().len() && s.drop_last()[i].key@ == k;
                assert(s[i].key@ == k);
            }
            if exists|i: int| 0 <= i < s.len() && s[i].key@ == k {
                let i = choose|i: int| 0 <= i < s.len() && s[i].key@ == k;
                assert(s.drop_last()[i].key@ == k);
            }
        }
    }
}

proof fn lemma_tx_map_of_index(s: Seq<TxEntry>, i: int)
    requires
        tx_entries_wf(s),
        0 <= i < s.len(),
    ensures
        tx_map_of(s).contains_key(s[i].key@),
        tx_map_of(s)[s[i].key@] == s[i].waiters@,
    decreases s.len(),
{
    if i == s.len() - 1 {
    } else {
        assert(tx_entries_wf(s.drop_last()));
        lemma_tx_map_of_index(s.drop_last(), i);
        assert(s.drop_last()[i] == s[i]);
        assert(s[i].key@ != s.last().key@);
    }
}

proof fn lemma_tx_map_of_remove(s: Seq<TxEntry>, i: int)
    requires
        tx_entries_wf(s),
        0 <= i < s.len(),
    ensures
        tx_map_of(s.remove(i)) == tx_map_of(s).remove(s[i].key@),
    decreases s.len(),
{
    let k = s[i].key@;
    s.remove_ensures(i);
    if i == s.len() - 1 {
        assert(s.remove(i) =~= s.drop_last());
        lemma_tx_map_of_contains(s.drop_last(), k);
        assert(!tx_map_of(s.drop_last()).contains_key(k));
        assert(tx_map_of(s).remove(k) =~= tx_map_of(s.drop_last()));
    } else {
        assert(s.remove(i).drop_last() =~= s.drop_last().remove(i));
        assert(s.remove(i).last() == s.last());
        assert(tx_entries_wf(s.drop_last()));
        lemma_tx_map_of_remove(s.drop_last(), i);
        assert(s.drop_last()[i].key@ == k);
        assert(k != s.last().key@);
        assert(tx_map_of(s.drop_last()).remove(k).insert(s.last().key@, s.last().waiters@)
            =~= tx_map_of(s.drop_last()).insert(s.last().key@, s.last().waiters@).remove(k));
    }
}

proof fn lemma_tx_entries_wf_remove(s: Seq<TxEntry>, i: int)
    requires
        tx_entries_wf(s),
        0 <= i < s.len(),
    ensures
        tx_entries_wf(s.remove(i)),
{
    s.remove_ensures(i);
    let t = s.remove(i);
    assert forall|a: int, b: int| 0 <= a < b < t.len() implies t[a].key@ != t[b].key@ by {
        let oa: int = if a < i {
            a
        } else {
            a + 1
        };
        let ob: int = if b < i {
            b
        } else {
            b + 1
        };
        assert(t[a] == s[oa]);
        assert(t[b] == s[ob]);
    }
    assert forall|a: int| 0 <= a < t.len() implies 1 <= #[trigger] t[a].waiters@.len()
        <= MAX_LISTENERS_PER_ENTITY as int by {
        let oa: int = if a < i {
            a
        } else {
            a + 1
        };
        assert(t[a] == s[oa]);
    }
}

fn hash_eq(a: &[u8; 32], b: &[u8; 32]) -> (r: bool)
    ensures
        r <==> a@ == b@,
{
    let mut i: usize = 0;
    while i < 32
        invariant
            0 <= i <= 32,
            forall|j: int| 0 <= j < i ==> a@[j] == b@[j],
        decreases 32 - i,
    {
        if a[i] != b[i] {
            assert(a@[i as int] != b@[i as int]);
            return false;
        }
        i += 1;
    }
    assert(a@ =~= b@);
    true
}

impl View for TxSubs {
    type V = Map<Seq<u8>, Seq<TxSender>>;

    closed spec fn view(&self) -> Map<Seq<u8>, Seq<TxSender>> {
        tx_map_of(self.entries@)
    }
}

impl TxSubs {
    /// The registry keeps distinct keys, and every bucket holds between one
    /// and `MAX_LISTENERS_PER_ENTITY` waiters.
    pub closed spec fn wf(&self) -> bool {
        tx_entries_wf(self.entries@)
    }

    /// Every bucket a well-formed registry holds is non-empty and within
    /// the listener bound.
    pub proof fn lemma_wf_bucket_bounds(&self)
        requires
            self.wf(),
        ensures
            forall|k: Seq<u8>| #[trigger] self@.contains_key(k) ==> 1 <= self@[k].len()
                <= MAX_LISTENERS_PER_ENTITY as int,
    {
        assert forall|k: Seq<u8>| #[trigger] self@.contains_key(k) implies 1 <= self@[k].len()
            <= MAX_LISTENERS_PER_ENTITY as int by {
            lemma_tx_map_of_contains(self.entries@, k);
            let i = choose|i: int| 0 <= i < self.entries@.len() && self.entries@[i].key@ == k;
            lemma_tx_map_of_index(self.entries@, i);
        }
    }

    /// An empty registry.
    pub fn new() -> (r: Self)
        ensures
            r@ == Map::<Seq<u8>, Seq<TxSender>>::empty(),
            r.wf(),
    {
        let r = TxSubs { entries: Vec::new() };
        proof {
            assert(r.entries@.len() == 0);
        }
        r
    }

    fn find_index(&self, key: &[u8; 32]) -> (r: Option<usize>)
        ensures
            (match r {
                Some(i) => i < self.entries@.len() && self.entries@[i as int].key@ == key@,
                None => forall|i: int| 0 <= i < self.entries@.len() ==> self.entries@[i].key@
                    != key@,
            }),
    {
        let mut i: usize = 0;
        while i < self.entries.len()
            invariant
                0 <= i <= self.entries@.len(),
                forall|j: int| 0 <= j < i ==> self.entries@[j].key@ != key@,
            decreases self.entries@.len() - i,
        {
            if hash_eq(&self.entries[i].key, key) {
                return Some(i);
            }
            i += 1;
        }
        None
    }

    /// Whether a bucket for this hash is present at all.
    pub fn contains(&self, key: &[u8; 32]) -> (r: bool)
        ensures
            r == self@.contains_key(key@),
    {
        proof {
            lemma_tx_map_of_contains(self.entries@, key@);
        }
        match self.find_index(key) {
            Some(_) => true,
            None => false,
        }
    }

    /// How many waiters are pending for this hash; zero where no bucket is
    /// present.
    pub fn bucket_len(&self, key: &[u8; 32]) -> (r: usize)
        requires
            self.wf(),
        ensures
            r == bucket_or_empty(self@, key@).len(),
    {
        proof {
            lemma_tx_map_of_contains(self.entries@, key@);
        }
        match self.find_index(key) {
            Some(i) => {
                proof {
                    lemma_tx_map_of_index(self.entries@, i as int);
                }
                self.entries[i].waiters.len()
            },
            None => 0,
        }
    }

    /// Atomically removes and returns the whole bucket for this hash, or
    /// `None` where none is present.
    pub fn drain(&mut self, key: &[u8; 32]) -> (r: Option<Vec<TxSender>>)
        requires
            old(self).wf(),
        ensures
            final(self).wf(),
            old(self)@.contains_key(key@) ==> (r matches Some(v) && v@ == old(self)@[key@]
                && final(self)@ == old(self)@.remove(key@)),
            !old(self)@.contains_key(key@) ==> (r is None && final(self)@ == old(self)@),
    {
        proof {
            lemma_tx_map_of_contains(self.entries@, key@);
        }
        match self.find_index(key) {
            Some(i) => {
                proof {
                    lemma_tx_map_of_index(self.entries@, i as int);
                    lemma_tx_map_of_remove(self.entries@, i as int);
                    lemma_tx_entries_wf_remove(self.entries@, i as int);
                }
                let e = self.entries.remove(i);
                Some(e.waiters)
            },
            None => None,
        }
    }

    /// Adds a whole bucket for a hash that has none yet.
    fn insert_bucket(&mut self, key: [u8; 32], waiters: Vec<TxSender>)
        requires
            old(self).wf(),
            !old(self)@.contains_key(key@),
            1 <= waiters@.len() <= MAX_LISTENERS_PER_ENTITY as int,
        ensures
            final(self).wf(),
            final(self)@ == old(self)@.insert(key@, waiters@),
    {
        proof {
            lemma_tx_map_of_contains(self.entries@, key@);
        }
        let ghost s0 = self.entries@;
        self.entries.push(TxEntry { key, waiters });
        proof {
            assert(self.entries@.drop_last() =~= s0);
            assert(self.entries@.last().key@ == key@);
            assert forall|a: int, b: int|
                0 <= a < b < self.entries@.len() implies self.entries@[a].key@
                != self.entries@[b].key@ by {
                if b < s0.len() {
                    assert(self.entries@[a] == s0[a]);
                    assert(self.entries@[b] == s0[b]);
                } else {
                    assert(self.entries@[a] == s0[a]);
                    assert(s0[a].key@ != key@);
                }
            }
            assert forall|a: int| 0 <= a < self.entries@.len() implies 1
                <= #[trigger] self.entries@[a].waiters@.len() <= MAX_LISTENERS_PER_ENTITY
                as int by {
                if a < s0.len() {
                    assert(self.entries@[a] == s0[a]);
                }
            }
        }
    }

    /// Registers one waiter for this hash if the bucket has capacity;
    /// otherwise drops it and returns false, leaving the registry as it
    /// was.
    pub fn try_register(&mut self, key: [u8; 32], notify: TxSender) -> (r: bool)
        requires
            old(self).wf(),
        ensures
            final(self).wf(),
            r <==> bucket_or_empty(old(self)@, key@).len() < MAX_LISTENERS_PER_ENTITY as int,
            r ==> final(self)@ == old(self)@.insert(
                key@,
                bucket_or_empty(old(self)@, key@).push(notify),
            ),
            !r ==> final(self)@ == old(self)@,
    {
        proof {
            self.lemma_wf_bucket_bounds();
        }
        let mut listeners = match self.drain(&key) {
            Some(v) => v,
            None => Vec::new(),
        };
        let accepted = listeners.len() < MAX_LISTENERS_PER_ENTITY;
        if accepted {
            listeners.push(notify);
        }
        self.insert_bucket(key, listeners);
        proof {
            if old(self)@.contains_key(key@) {
                if accepted {
                    assert(self@ =~= old(self)@.insert(
                        key@,
                        bucket_or_empty(old(self)@, key@).push(notify),
                    ));
                } else {
                    assert(self@ =~= old(self)@);
                }
            } else {
                assert(listeners@ =~= bucket_or_empty(old(self)@, key@).push(notify));
            }
        }
        accepted
    }
}

} // verus!

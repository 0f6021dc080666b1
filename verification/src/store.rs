use vstd::prelude::*;
use crate::types::{bytes32_eq, TransactionOutput, H256};

verus! {

/// One stored UTXO: its content-addressed hash and the output itself.
#[derive(Clone, Copy, Debug)]
pub struct StoreEntry {
    pub hash: H256,
    pub output: TransactionOutput,
}

/// The set of unspent transaction outputs, a mapping from outpoint hash to
/// output. Entries are created by the genesis loader, by successful
/// transactions and by the reward dispatcher, and destroyed only when spent.
#[derive(Clone, Debug)]
pub struct UtxoStore {
    pub entries: Vec<StoreEntry>,
}

/// The mapping a list of entries stands for; later entries shadow earlier ones.
pub open spec fn entries_map(s: Seq<StoreEntry>) -> Map<Seq<u8>, TransactionOutput>
    decreases s.len(),
{
    if s.len() == 0 {
        Map::empty()
    } else {
        entries_map(s.drop_last()).insert(s.last().hash@, s.last().output)
    }
}

/// Every key appears at most once among the entries.
pub open spec fn entries_wf(s: Seq<StoreEntry>) -> bool {
    forall|i: int, j: int| 0 <= i < j < s.len() ==> s[i].hash@ != s[j].hash@
}

/// An entry at position `i` is visible in the mapping.
proof fn lemma_entries_map_index(s: Seq<StoreEntry>, i: int)
    requires
        entries_wf(s),
        0 <= i < s.len(),
    ensures
        entries_map(s).contains_key(s[i].hash@),
        entries_map(s)[s[i].hash@] == s[i].output,
    decreases s.len(),
{
    if i == s.len() - 1 {
    } else {
        assert(entries_wf(s.drop_last()));
        lemma_entries_map_index(s.drop_last(), i);
        assert(s[i].hash@ != s.last().hash@);
    }
}

/// A key held by no entry is absent from the mapping.
proof fn lemma_entries_map_absent(s: Seq<StoreEntry>, k: Seq<u8>)
    requires
        forall|i: int| 0 <= i < s.len() ==> s[i].hash@ != k,
    ensures
        !entries_map(s).contains_key(k),
    decreases s.len(),
{
    if s.len() > 0 {
        lemma_entries_map_absent(s.drop_last(), k);
    }
}

/// Removing the entry that holds a key removes exactly that key from the mapping.
proof fn lemma_entries_map_remove(s: Seq<StoreEntry>, i: int)
    requires
        entries_wf(s),
        0 <= i < s.len(),
    ensures
        entries_map(s.remove(i)) == entries_map(s).remove(s[i].hash@),
    decreases s.len(),
{
    let k = s[i].hash@;
    if i == s.len() - 1 {
        assert(s.remove(i) =~= s.drop_last());
        assert(forall|j: int| 0 <= j < s.drop_last().len() ==> s.drop_last()[j].hash@ != k);
        lemma_entries_map_absent(s.drop_last(), k);
        assert(entries_map(s.drop_last()) =~= entries_map(s).remove(k));
    } else {
        assert(entries_wf(s.drop_last()));
        lemma_entries_map_remove(s.drop_last(), i);
        assert(s.remove(i).drop_last() =~= s.drop_last().remove(i));
        assert(s.remove(i).last() == s.last());
        assert(s.last().hash@ != k);
        assert(entries_map(s.drop_last().remove(i)).insert(s.last().hash@, s.last().output)
            =~= entries_map(s).remove(k));
    }
}

impl UtxoStore {
    /// The mapping this store holds.
    pub open spec fn spec_map(self) -> Map<Seq<u8>, TransactionOutput> {
        entries_map(self.entries@)
    }

    /// No two entries share a hash.
    pub open spec fn wf(self) -> bool {
        entries_wf(self.entries@)
    }

    /// An empty store.
    pub fn new() -> (r: UtxoStore)
        ensures
            r.wf(),
            r.spec_map() == Map::<Seq<u8>, TransactionOutput>::empty(),
    {
        UtxoStore { entries: Vec::new() }
    }

    /// Position of the entry holding `h`, if any.
    fn find(&self, h: &H256) -> (r: Option<usize>)
        requires
            self.wf(),
        ensures
            match r {
                Some(i) => i < self.entries@.len() && self.entries@[i as int].hash@ == h@
                    && self.spec_map().contains_key(h@) && self.spec_map()[h@]
                    == self.entries@[i as int].output,
                None => !self.spec_map().contains_key(h@) && (forall|j: int|
                    0 <= j < self.entries@.len() ==> self.entries@[j].hash@ != h@),
            },
    {
        let mut i: usize = 0;
        while i < self.entries.len()
            invariant
                0 <= i <= self.entries@.len(),
                forall|j: int| 0 <= j < i ==> self.entries@[j].hash@ != h@,
            decreases self.entries@.len() - i,
        {
            if bytes32_eq(&self.entries[i].hash, h) {
                proof {
                    lemma_entries_map_index(self.entries@, i as int);
                }
                return Some(i);
            }
            i = i + 1;
        }
        proof {
            lemma_entries_map_absent(self.entries@, h@);
        }
        None
    }

    /// Read the output a hash refers to.
    pub fn get(&self, h: &H256) -> (r: Option<&TransactionOutput>)
        requires
            self.wf(),
        ensures
            match r {
                Some(o) => self.spec_map().contains_key(h@) && *o == self.spec_map()[h@],
                None => !self.spec_map().contains_key(h@),
            },
    {
        match self.find(h) {
            Some(i) => Some(&self.entries[i].output),
            None => None,
        }
    }

    /// Whether a hash is present.
    pub fn contains(&self, h: &H256) -> (r: bool)
        requires
            self.wf(),
        ensures
            r == self.spec_map().contains_key(h@),
    {
        self.find(h).is_some()
    }

    /// Insert an output under a hash, overwriting any previous holder of the hash.
    pub fn insert(&mut self, h: H256, output: TransactionOutput)
        requires
            old(self).wf(),
        ensures
            final(self).wf(),
            final(self).spec_map() == old(self).spec_map().insert(h@, output),
    {
        let found = self.find(&h);
        match found {
            Some(i) => {
                proof {
                    lemma_entries_map_remove(self.entries@, i as int);
                }
                proof {
                    assert(forall|j: int|
                        0 <= j < old(self).entries@.len() && j != i ==> old(
                            self,
                        ).entries@[j].hash@ != h@);
                }
                self.entries.remove(i);
                self.entries.push(StoreEntry { hash: h, output });
                proof {
                    assert(self.entries@.drop_last() =~= old(self).entries@.remove(i as int));
                    let removed = old(self).entries@.remove(i as int);
                    assert(forall|j: int| 0 <= j < removed.len() ==> removed[j].hash@ != h@);
                    assert(entries_wf(self.entries@));
                    assert(self.spec_map() =~= old(self).spec_map().insert(h@, output));
                }
            },
            None => {
                self.entries.push(StoreEntry { hash: h, output });
                proof {
                    assert(self.entries@.drop_last() =~= old(self).entries@);
                    assert(entries_wf(self.entries@));
                }
            },
        }
    }

    /// Remove the output a hash refers to, if any.
    pub fn remove(&mut self, h: &H256)
        requires
            old(self).wf(),
        ensures
            final(self).wf(),
            final(self).spec_map() == old(self).spec_map().remove(h@),
    {
        let found = self.find(h);
        match found {
            Some(i) => {
                proof {
                    lemma_entries_map_remove(self.entries@, i as int);
                }
                self.entries.remove(i);
            },
            None => {
                proof {
                    assert(old(self).spec_map() =~= old(self).spec_map().remove(h@));
                }
            },
        }
    }

    /// How many outputs are stored.
    pub fn len(&self) -> (r: usize)
        ensures
            r == self.entries@.len(),
    {
        self.entries.len()
    }
}

} // verus!

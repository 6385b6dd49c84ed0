use vstd::prelude::*;

use crate::text::str_eq;

verus! {

/// A cache held in memory: the entries in the order they were written; a later
/// write of a key hides the earlier ones.
pub struct MemoryCache {
    pub entries: Vec<(String, Vec<u8>)>,
}

/// What a sequence of writes leaves in the cache.
pub open spec fn contents(s: Seq<(String, Vec<u8>)>) -> Map<Seq<char>, Seq<u8>>
    decreases s.len(),
{
    if s.len() == 0 {
        Map::empty()
    } else {
        contents(s.drop_last()).insert(s.last().0@, s.last().1@)
    }
}

impl MemoryCache {
    /// The key-to-bytes map that the cache holds.
    pub open spec fn view(&self) -> Map<Seq<char>, Seq<u8>> {
        contents(self.entries@)
    }

    /// An empty cache.
    pub fn new() -> (r: MemoryCache)
        ensures
            r.view() == Map::<Seq<char>, Seq<u8>>::empty(),
    {
        MemoryCache { entries: Vec::new() }
    }

    /// The bytes stored under `key`, if any.
    pub fn read(&self, key: &str) -> (r: Option<Vec<u8>>)
        ensures
            r is Some <==> self.view().contains_key(key@),
            r is Some ==> r->0@ == self.view()[key@],
    {
        let mut i = self.entries.len();
        proof {
            assert(self.entries@.take(i as int) =~= self.entries@);
        }
        while i > 0
            invariant
                i <= self.entries@.len(),
                self.view().contains_key(key@) == contents(self.entries@.take(i as int)).contains_key(key@),
                self.view().contains_key(key@) ==> self.view()[key@] == contents(self.entries@.take(i as int))[key@],
            decreases i,
        {
            proof {
                assert(self.entries@.take(i as int).drop_last() =~= self.entries@.take(i - 1));
            }
            if str_eq(self.entries[i - 1].0.as_str(), key) {
                return Some(self.entries[i - 1].1.clone());
            }
            i = i - 1;
        }
        None
    }

    /// Stores `value` under `key`.
    pub fn write(&mut self, key: &str, value: Vec<u8>)
        ensures
            final(self).view() == old(self).view().insert(key@, value@),
    {
        let ghost before = self.entries@;
        self.entries.push((key.to_string(), value));
        proof {
            assert(self.entries@.drop_last() =~= before);
        }
    }

    /// Removes every entry.
    pub fn clear(&mut self)
        ensures
            final(self).view() == Map::<Seq<char>, Seq<u8>>::empty(),
    {
        self.entries = Vec::new();
    }
}

/// Reading a key right after writing it gives the written bytes, whatever the
/// cache held before.
pub proof fn lemma_read_after_write(m: Map<Seq<char>, Seq<u8>>, key: Seq<char>, value: Seq<u8>)
    ensures
        m.insert(key, value).contains_key(key),
        m.insert(key, value)[key] == value,
{
}

} // verus!

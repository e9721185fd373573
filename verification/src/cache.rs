//! A cache of solver binaries, filed by algorithm. It is an object that its
//! owner creates and drops; the first binary filed for an algorithm stays.

use vstd::prelude::*;

verus! {

/// The binary that `entries` holds for `id`: that of the first entry for it.
pub open spec fn cached(entries: Seq<(String, Vec<u8>)>, id: Seq<char>) -> Option<Seq<u8>>
    decreases entries.len(),
{
    if entries.len() == 0 {
        None
    } else if entries[0].0@ == id {
        Some(entries[0].1@)
    } else {
        cached(entries.drop_first(), id)
    }
}

/// An entry added at the end serves the algorithms that had no entry.
proof fn lemma_cached_push(entries: Seq<(String, Vec<u8>)>, entry: (String, Vec<u8>), id: Seq<char>)
    ensures
        cached(entries.push(entry), id) == if cached(entries, id).is_some() {
            cached(entries, id)
        } else if entry.0@ == id {
            Some(entry.1@)
        } else {
            None
        },
    decreases entries.len(),
{
    let longer = entries.push(entry);
    if entries.len() == 0 {
        assert(longer[0] == entry);
        assert(longer.drop_first().len() == 0);
        assert(cached(longer.drop_first(), id).is_none());
    } else {
        assert(longer[0] == entries[0]);
        assert(longer.drop_first() =~= entries.drop_first().push(entry));
        lemma_cached_push(entries.drop_first(), entry, id);
    }
}

/// The one algorithm whose binary is read from a local file and not
/// downloaded.
pub open spec fn local_algorithm() -> Seq<char> {
    "c002_a036"@
}

/// Whether the binary of `algorithm_id` is read from a local file.
pub fn loads_locally(algorithm_id: &String) -> (local: bool)
    ensures
        local == (algorithm_id@ == local_algorithm()),
{
    let name = "c002_a036".to_owned();
    *algorithm_id == name
}

/// Solver binaries by algorithm.
pub struct WasmCache {
    entries: Vec<(String, Vec<u8>)>,
}

impl View for WasmCache {
    type V = Map<Seq<char>, Seq<u8>>;

    closed spec fn view(&self) -> Map<Seq<char>, Seq<u8>> {
        Map::new(
            |id: Seq<char>| cached(self.entries@, id).is_some(),
            |id: Seq<char>| cached(self.entries@, id).unwrap(),
        )
    }
}

impl WasmCache {
    /// A cache without binaries.
    pub fn new() -> (cache: WasmCache)
        ensures
            cache@ == Map::<Seq<char>, Seq<u8>>::empty(),
    {
        let cache = WasmCache { entries: Vec::new() };
        assert(cache@ =~= Map::<Seq<char>, Seq<u8>>::empty());
        cache
    }

    /// A copy of the binary of `algorithm_id`, if the cache has it.
    pub fn get(&self, algorithm_id: &String) -> (blob: Option<Vec<u8>>)
        ensures
            match blob {
                Some(b) => self@.contains_key(algorithm_id@) && b@ == self@[algorithm_id@],
                None => !self@.contains_key(algorithm_id@),
            },
    {
        let mut i: usize = 0;
        assert(self.entries@.skip(0) =~= self.entries@);
        while i < self.entries.len()
            invariant
                i <= self.entries.len(),
                cached(self.entries@, algorithm_id@) == cached(
                    self.entries@.skip(i as int),
                    algorithm_id@,
                ),
            decreases self.entries.len() - i,
        {
            assert(self.entries@.skip(i as int).drop_first() =~= self.entries@.skip(i + 1));
            if self.entries[i].0 == *algorithm_id {
                let blob = self.entries[i].1.clone();
                assert(blob@ =~= self.entries@[i as int].1@);
                return Some(blob);
            }
            i = i + 1;
        }
        None
    }

    /// Files `blob` for `algorithm_id`, unless the cache has a binary for it
    /// already. Says whether it was filed.
    pub fn insert(&mut self, algorithm_id: String, blob: Vec<u8>) -> (filed: bool)
        ensures
            filed == !old(self)@.contains_key(algorithm_id@),
            final(self)@ == if filed {
                old(self)@.insert(algorithm_id@, blob@)
            } else {
                old(self)@
            },
    {
        let mut i: usize = 0;
        assert(self.entries@.skip(0) =~= self.entries@);
        while i < self.entries.len()
            invariant
                i <= self.entries.len(),
                *self == *old(self),
                cached(self.entries@, algorithm_id@) == cached(
                    self.entries@.skip(i as int),
                    algorithm_id@,
                ),
            decreases self.entries.len() - i,
        {
            assert(self.entries@.skip(i as int).drop_first() =~= self.entries@.skip(i + 1));
            if self.entries[i].0 == algorithm_id {
                return false;
            }
            i = i + 1;
        }
        let ghost entry = (algorithm_id, blob);
        proof {
            assert forall|id: Seq<char>|
                cached(self.entries@.push(entry), id) == if cached(self.entries@, id).is_some() {
                    cached(self.entries@, id)
                } else if entry.0@ == id {
                    Some(entry.1@)
                } else {
                    None
                } by {
                lemma_cached_push(self.entries@, entry, id);
            }
        }
        self.entries.push((algorithm_id, blob));
        assert(self@ =~= old(self)@.insert(algorithm_id@, blob@));
        true
    }

    /// Whether the cache holds no binary.
    pub fn is_empty(&self) -> (empty: bool)
        ensures
            empty == (self@ == Map::<Seq<char>, Seq<u8>>::empty()),
    {
        proof {
            if self.entries@.len() > 0 {
                assert(self@.contains_key(self.entries@[0].0@));
            } else {
                assert(self@ =~= Map::<Seq<char>, Seq<u8>>::empty());
            }
        }
        self.entries.len() == 0
    }
}

} // verus!

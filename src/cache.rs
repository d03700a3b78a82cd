use crate::blob::Blob;
use vstd::prelude::*;

verus! {

/// An in-memory map from relative paths to blobs.
///
/// The entries are kept in a vector whose paths are pairwise distinct.
pub struct BlobCache {
    entries: Vec<(String, Blob)>,
}

impl BlobCache {
    /// Whether entry `i` holds the path `k`.
    spec fn holds_at(self, i: int, k: Seq<char>) -> bool {
        0 <= i < self.entries@.len() && self.entries@[i].0@ == k
    }

    /// The cache is well formed: no path has two entries.
    pub closed spec fn wf(self) -> bool {
        forall|i: int, j: int|
            0 <= i < self.entries@.len() && 0 <= j < self.entries@.len() && i != j
                ==> #[trigger] self.entries@[i].0@ != #[trigger] self.entries@[j].0@
    }
}

impl View for BlobCache {
    type V = Map<Seq<char>, Seq<u8>>;

    closed spec fn view(&self) -> Map<Seq<char>, Seq<u8>> {
        Map::new(
            |k: Seq<char>| exists|i: int| self.holds_at(i, k),
            |k: Seq<char>| self.entries@[choose|i: int| self.holds_at(i, k)].1@,
        )
    }
}

impl BlobCache {
    /// An empty cache.
    pub fn new() -> (r: BlobCache)
        ensures
            r.wf(),
            r@ == Map::<Seq<char>, Seq<u8>>::empty(),
    {
        let r = BlobCache { entries: Vec::new() };
        assert(r@ =~= Map::<Seq<char>, Seq<u8>>::empty());
        r
    }

    /// The index of the entry for `path`, if there is one.
    fn position(&self, path: &str) -> (r: Option<usize>)
        ensures
            match r {
                Some(i) => self.holds_at(i as int, path@),
                None => !self@.contains_key(path@),
            },
    {
        let key = path.to_owned();
        let mut i: usize = 0;
        while i < self.entries.len()
            invariant
                i <= self.entries@.len(),
                key@ == path@,
                forall|j: int| 0 <= j < i ==> self.entries@[j].0@ != path@,
            decreases self.entries@.len() - i,
        {
            if self.entries[i].0 == key {
                return Some(i);
            }
            i = i + 1;
        }
        None
    }

    /// Whether `path` is in the cache.
    pub fn contains(&self, path: &str) -> (r: bool)
        requires
            self.wf(),
        ensures
            r == self@.contains_key(path@),
    {
        match self.position(path) {
            Some(i) => {
                assert(self.holds_at(i as int, path@));
                true
            },
            None => false,
        }
    }

    /// A handle on the blob cached for `path`, if any.
    pub fn get(&self, path: &str) -> (r: Option<Blob>)
        requires
            self.wf(),
        ensures
            match r {
                Some(b) => self@.contains_key(path@) && b@ == self@[path@],
                None => !self@.contains_key(path@),
            },
    {
        match self.position(path) {
            Some(i) => {
                proof {
                    self.lemma_entry_in_view(i as int);
                }
                Some(self.entries[i].1.share())
            },
            None => None,
        }
    }

    /// What entry `i` holds is what the map gives for its path.
    proof fn lemma_entry_in_view(self, i: int)
        requires
            self.wf(),
            0 <= i < self.entries@.len(),
        ensures
            self@.contains_key(self.entries@[i].0@),
            self@[self.entries@[i].0@] == self.entries@[i].1@,
    {
        let k = self.entries@[i].0@;
        assert(self.holds_at(i, k));
        let j = choose|j: int| self.holds_at(j, k);
        assert(self.entries@[j].0@ == self.entries@[i].0@);
    }

    /// Drops what is cached for `path`; nothing happens where nothing is cached.
    pub fn remove(&mut self, path: &str)
        requires
            old(self).wf(),
        ensures
            final(self).wf(),
            final(self)@ == old(self)@.remove(path@),
    {
        let ghost pre = *self;
        match self.position(path) {
            Some(i) => {
                let ghost n = pre.entries@.len();
                self.entries.swap_remove(i);
                proof {
                    let post = *self;
                    assert forall|j: int| 0 <= j < post.entries@.len()
                        implies post.entries@[j] == pre.entries@[if j == i { n - 1 } else { j }] by {}
                    assert(post.wf());
                    assert forall|k: Seq<char>| post@.contains_key(k) == pre@.remove(path@).contains_key(k) by {
                        if post@.contains_key(k) {
                            let j = choose|j: int| post.holds_at(j, k);
                            let oj = if j == i { n - 1 } else { j };
                            assert(pre.holds_at(oj, k));
                            assert(oj != i);
                        }
                        if pre@.remove(path@).contains_key(k) {
                            let oj = choose|j: int| pre.holds_at(j, k);
                            assert(oj != i);
                            let j = if oj == n - 1 { i as int } else { oj };
                            assert(post.holds_at(j, k));
                        }
                    }
                    assert forall|k: Seq<char>| post@.contains_key(k) implies post@[k] == pre@[k] by {
                        let j = choose|j: int| post.holds_at(j, k);
                        let oj = if j == i { n - 1 } else { j };
                        post.lemma_entry_in_view(j);
                        pre.lemma_entry_in_view(oj);
                    }
                    assert(post@ =~= pre@.remove(path@));
                }
            },
            None => {
                assert(pre@.remove(path@) =~= pre@);
            },
        }
    }

    /// Caches `blob` for `path`, replacing what was cached for it before.
    pub fn insert(&mut self, path: &str, blob: Blob)
        requires
            old(self).wf(),
        ensures
            final(self).wf(),
            final(self)@ == old(self)@.insert(path@, blob@),
    {
        let ghost pre = *self;
        self.remove(path);
        let ghost mid = *self;
        let key = path.to_owned();
        self.entries.push((key, blob));
        proof {
            let post = *self;
            let n = mid.entries@.len() as int;
            assert forall|j: int| 0 <= j < n implies mid.entries@[j].0@ != path@ by {
                mid.lemma_entry_in_view(j);
            }
            assert(post.wf());
            assert forall|k: Seq<char>| post@.contains_key(k) == mid@.insert(path@, blob@).contains_key(k) by {
                if k == path@ {
                    assert(post.holds_at(n, k));
                } else {
                    if post@.contains_key(k) {
                        let j = choose|j: int| post.holds_at(j, k);
                        assert(mid.holds_at(j, k));
                    }
                    if mid@.contains_key(k) {
                        let j = choose|j: int| mid.holds_at(j, k);
                        assert(post.holds_at(j, k));
                    }
                }
            }
            assert forall|k: Seq<char>| post@.contains_key(k) implies post@[k] == mid@.insert(path@, blob@)[k] by {
                let j = choose|j: int| post.holds_at(j, k);
                post.lemma_entry_in_view(j);
                if j < n {
                    mid.lemma_entry_in_view(j);
                }
            }
            assert(post@ =~= mid@.insert(path@, blob@));
            assert(mid@.insert(path@, blob@) =~= pre@.insert(path@, blob@));
        }
    }
}

} // verus!

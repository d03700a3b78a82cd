use vstd::prelude::*;

verus! {

/// Whether an observation `current` of the watched file counts as a change
/// from the contents `last` seen before. A failed read (`None`) is no change.
pub open spec fn fires(last: Option<Seq<u8>>, current: Option<Seq<u8>>) -> bool {
    match current {
        Some(c) => last != Some(c),
        None => false,
    }
}

/// The contents that a read of the watched file gave, if it succeeded.
pub open spec fn contents_of(read: Option<Vec<u8>>) -> Option<Seq<u8>> {
    match read {
        Some(v) => Some(v@),
        None => None,
    }
}

/// The ids of the callbacks to run after observing `current`.
pub open spec fn dispatched<C>(live: Map<u64, C>, last: Option<Seq<u8>>, current: Option<Seq<u8>>) -> Set<u64> {
    if fires(last, current) {
        live.dom()
    } else {
        Set::empty()
    }
}

/// A change of the watched file's contents reaches every live callback, and a
/// callback whose registration was removed is not among those run.
pub proof fn lemma_change_reaches_live_callbacks<C>(
    live: Map<u64, C>,
    id: u64,
    last: Option<Seq<u8>>,
    current: Seq<u8>,
)
    ensures
        last != Some(current) && live.contains_key(id) ==> dispatched(live, last, Some(current)).contains(id),
        !dispatched(live.remove(id), last, Some(current)).contains(id),
        last == Some(current) ==> dispatched(live, last, Some(current)) == Set::<u64>::empty(),
{
}

/// Whether two byte slices hold the same bytes.
pub fn bytes_equal(a: &[u8], b: &[u8]) -> (r: bool)
    ensures
        r == (a@ == b@),
{
    if a.len() != b.len() {
        return false;
    }
    let mut i: usize = 0;
    while i < a.len()
        invariant
            a@.len() == b@.len(),
            i <= a@.len(),
            forall|j: int| 0 <= j < i ==> a@[j] == b@[j],
        decreases a@.len() - i,
    {
        if a[i] != b[i] {
            return false;
        }
        i = i + 1;
    }
    assert(a@ =~= b@);
    true
}

/// Whether entry `i` of `regs` holds the id `id`.
spec fn holds_at<C>(regs: Seq<(u64, C)>, i: int, id: u64) -> bool {
    0 <= i < regs.len() && regs[i].0 == id
}

/// The registrations `regs` as a map from id to callback.
spec fn registrations<C>(regs: Seq<(u64, C)>) -> Map<u64, C> {
    Map::new(
        |id: u64| exists|i: int| holds_at(regs, i, id),
        |id: u64| regs[choose|i: int| holds_at(regs, i, id)].1,
    )
}

/// Callbacks registered on one watched file, with the contents last seen of it.
pub struct FileWatcher<C> {
    callbacks: Vec<(u64, C)>,
    next_id: u64,
    last: Option<Vec<u8>>,
}

impl<C> FileWatcher<C> {
    /// Ids are pairwise distinct and below the next one to hand out.
    pub closed spec fn wf(self) -> bool {
        &&& forall|i: int, j: int|
            0 <= i < self.callbacks@.len() && 0 <= j < self.callbacks@.len() && i != j
                ==> #[trigger] self.callbacks@[i].0 != #[trigger] self.callbacks@[j].0
        &&& forall|i: int| 0 <= i < self.callbacks@.len() ==> #[trigger] self.callbacks@[i].0 < self.next_id
    }

    /// The live registrations, by id.
    pub closed spec fn live(self) -> Map<u64, C> {
        registrations(self.callbacks@)
    }

    /// How many ids have been handed out; each registration takes a fresh one.
    pub closed spec fn issued(self) -> nat {
        self.next_id as nat
    }

    /// The contents of the watched file as last seen.
    pub closed spec fn last_seen(self) -> Option<Seq<u8>> {
        contents_of(self.last)
    }

    proof fn lemma_entry_live(self, i: int)
        requires
            self.wf(),
            0 <= i < self.callbacks@.len(),
        ensures
            self.live().contains_key(self.callbacks@[i].0),
            self.live()[self.callbacks@[i].0] == self.callbacks@[i].1,
    {
        let id = self.callbacks@[i].0;
        assert(holds_at(self.callbacks@, i, id));
        let j = choose|j: int| holds_at(self.callbacks@, j, id);
        assert(self.callbacks@[j].0 == self.callbacks@[i].0);
    }

    /// A watcher with no callbacks, which has seen `initial` of the file.
    pub fn new(initial: Option<Vec<u8>>) -> (r: FileWatcher<C>)
        ensures
            r.wf(),
            r.live() == Map::<u64, C>::empty(),
            r.issued() == 0,
            r.last_seen() == contents_of(initial),
    {
        let r = FileWatcher { callbacks: Vec::new(), next_id: 0, last: initial };
        assert(r.live() =~= Map::<u64, C>::empty());
        r
    }

    /// Registers `callback` under a fresh id; `None` once every id has been handed out.
    pub fn watch(&mut self, callback: C) -> (r: Option<u64>)
        requires
            old(self).wf(),
        ensures
            final(self).wf(),
            final(self).last_seen() == old(self).last_seen(),
            r is Some <==> old(self).issued() < u64::MAX,
            final(self).issued() == if r is Some { old(self).issued() + 1 } else { old(self).issued() },
            match r {
                Some(id) => !old(self).live().contains_key(id) && final(self).live() == old(self).live().insert(id, callback),
                None => final(self).live() == old(self).live(),
            },
    {
        if self.next_id == u64::MAX {
            return None;
        }
        let ghost pre = *self;
        let id = self.next_id;
        self.callbacks.push((id, callback));
        self.next_id = id + 1;
        proof {
            let post = *self;
            let n = pre.callbacks@.len() as int;
            assert(post.wf());
            assert(!pre.live().contains_key(id));
            assert forall|k: u64| post.live().contains_key(k) == pre.live().insert(id, callback).contains_key(k) by {
                if k == id {
                    assert(holds_at(post.callbacks@, n, k));
                } else {
                    if post.live().contains_key(k) {
                        let j = choose|j: int| holds_at(post.callbacks@, j, k);
                        assert(holds_at(pre.callbacks@, j, k));
                    }
                    if pre.live().contains_key(k) {
                        let j = choose|j: int| holds_at(pre.callbacks@, j, k);
                        assert(holds_at(post.callbacks@, j, k));
                    }
                }
            }
            assert forall|k: u64| post.live().contains_key(k) implies post.live()[k] == pre.live().insert(id, callback)[k] by {
                let j = choose|j: int| holds_at(post.callbacks@, j, k);
                post.lemma_entry_live(j);
                if j < n {
                    pre.lemma_entry_live(j);
                }
            }
            assert(post.live() =~= pre.live().insert(id, callback));
        }
        Some(id)
    }

    /// Removes the registration `id`; nothing happens where there is none.
    pub fn unwatch(&mut self, id: u64)
        requires
            old(self).wf(),
        ensures
            final(self).wf(),
            final(self).last_seen() == old(self).last_seen(),
            final(self).live() == old(self).live().remove(id),
            final(self).issued() == old(self).issued(),
    {
        let ghost pre = *self;
        let mut i: usize = 0;
        while i < self.callbacks.len()
            invariant
                *self == pre,
                pre.wf(),
                pre == *old(self),
                i <= self.callbacks@.len(),
                forall|j: int| 0 <= j < i ==> self.callbacks@[j].0 != id,
            decreases self.callbacks@.len() - i,
        {
            if self.callbacks[i].0 == id {
                let ghost n = pre.callbacks@.len();
                self.callbacks.swap_remove(i);
                proof {
                    let post = *self;
                    assert forall|j: int| 0 <= j < post.callbacks@.len()
                        implies post.callbacks@[j] == pre.callbacks@[if j == i { n - 1 } else { j }] by {}
                    assert(post.wf());
                    assert forall|k: u64| post.live().contains_key(k) == pre.live().remove(id).contains_key(k) by {
                        if post.live().contains_key(k) {
                            let j = choose|j: int| holds_at(post.callbacks@, j, k);
                            let oj = if j == i { n - 1 } else { j };
                            assert(holds_at(pre.callbacks@, oj, k));
                            assert(oj != i);
                        }
                        if pre.live().remove(id).contains_key(k) {
                            let oj = choose|j: int| holds_at(pre.callbacks@, j, k);
                            assert(oj != i);
                            let j = if oj == n - 1 { i as int } else { oj };
                            assert(holds_at(post.callbacks@, j, k));
                        }
                    }
                    assert forall|k: u64| post.live().contains_key(k) implies post.live()[k] == pre.live()[k] by {
                        let j = choose|j: int| holds_at(post.callbacks@, j, k);
                        let oj = if j == i { n - 1 } else { j };
                        post.lemma_entry_live(j);
                        pre.lemma_entry_live(oj);
                    }
                    assert(post.live() =~= pre.live().remove(id));
                }
                return;
            }
            i = i + 1;
        }
        assert(pre.live().remove(id) =~= pre.live());
    }

    /// The ids of the live registrations, each once.
    pub fn ids(&self) -> (r: Vec<u64>)
        requires
            self.wf(),
        ensures
            r@.to_set() == self.live().dom(),
            r@.no_duplicates(),
    {
        let mut r: Vec<u64> = Vec::new();
        let mut i: usize = 0;
        while i < self.callbacks.len()
            invariant
                i <= self.callbacks@.len(),
                r@.len() == i,
                forall|j: int| 0 <= j < i ==> #[trigger] r@[j] == self.callbacks@[j].0,
            decreases self.callbacks@.len() - i,
        {
            r.push(self.callbacks[i].0);
            i = i + 1;
        }
        assert forall|id: u64| r@.to_set().contains(id) == self.live().dom().contains(id) by {
            if self.live().dom().contains(id) {
                let j = choose|j: int| holds_at(self.callbacks@, j, id);
                assert(r@[j] == id);
            }
            if r@.to_set().contains(id) {
                let j = choose|j: int| 0 <= j < r@.len() && r@[j] == id;
                assert(holds_at(self.callbacks@, j, id));
            }
        }
        assert(r@.to_set() =~= self.live().dom());
        r
    }

    /// The callback registered under `id`, if it is live.
    pub fn callback(&self, id: u64) -> (r: Option<&C>)
        requires
            self.wf(),
        ensures
            match r {
                Some(c) => self.live().contains_key(id) && *c == self.live()[id],
                None => !self.live().contains_key(id),
            },
    {
        let mut i: usize = 0;
        while i < self.callbacks.len()
            invariant
                self.wf(),
                i <= self.callbacks@.len(),
                forall|j: int| 0 <= j < i ==> self.callbacks@[j].0 != id,
            decreases self.callbacks@.len() - i,
        {
            if self.callbacks[i].0 == id {
                proof {
                    self.lemma_entry_live(i as int);
                }
                return Some(&self.callbacks[i].1);
            }
            i = i + 1;
        }
        None
    }

    /// Takes in a fresh read `current` of the watched file and returns the ids of
    /// the callbacks to run: every live one where the contents changed, none otherwise.
    pub fn poll(&mut self, current: Option<Vec<u8>>) -> (r: Vec<u64>)
        requires
            old(self).wf(),
        ensures
            final(self).wf(),
            final(self).live() == old(self).live(),
            final(self).issued() == old(self).issued(),
            final(self).last_seen() == (if contents_of(current) is Some {
                contents_of(current)
            } else {
                old(self).last_seen()
            }),
            r@.to_set() == dispatched(old(self).live(), old(self).last_seen(), contents_of(current)),
            r@.no_duplicates(),
    {
        let changed = match (&self.last, &current) {
            (_, None) => false,
            (None, Some(_)) => true,
            (Some(last), Some(now)) => !bytes_equal(last.as_slice(), now.as_slice()),
        };
        let r = if changed {
            self.ids()
        } else {
            let r: Vec<u64> = Vec::new();
            assert(r@.to_set() =~= Set::<u64>::empty());
            r
        };
        let ghost pre = *self;
        if current.is_some() {
            self.last = current;
        }
        proof {
            assert(self.callbacks@ == pre.callbacks@);
        }
        r
    }
}

} // verus!

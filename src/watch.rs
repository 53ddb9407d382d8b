use vstd::prelude::*;

use crate::types::{updates_view, DeleteEvent, UpdateEvent, UpdateEventV, WatchResponse, WatchResponseV};

verus! {

/// A subscription to the hub; batches are taken from the hub by this handle.
pub struct Watcher {
    id: u64,
}

/// The right to seed a new watcher with its initial batch, once.
pub struct WatcherInitializer {
    id: u64,
}

impl Watcher {
    /// The id under which the hub knows this watcher.
    pub closed spec fn key(&self) -> u64 {
        self.id
    }
}

impl WatcherInitializer {
    /// The id of the watcher that this initializer seeds.
    pub closed spec fn key(&self) -> u64 {
        self.id
    }
}

struct WatcherEntry {
    id: u64,
    pending: Vec<WatchResponse>,
}

/// Fans batches of events out to every registered watcher; each watcher has a
/// queue of its own, so a slow consumer holds up nobody.
pub struct WatchHub {
    next_id: u64,
    entries: Vec<WatcherEntry>,
}

/// The values of a queue of batches.
pub open spec fn batches_view(s: Seq<WatchResponse>) -> Seq<WatchResponseV> {
    s.map_values(|b: WatchResponse| b@)
}

spec fn entry_ids(s: Seq<WatcherEntry>) -> Seq<u64> {
    s.map_values(|e: WatcherEntry| e.id)
}

spec fn index_of(ids: Seq<u64>, id: u64) -> int {
    choose|i: int| 0 <= i < ids.len() && ids[i] == id
}

/// The batch that carries the given updates and no deletes.
pub open spec fn update_batch(updates: Seq<UpdateEvent>) -> WatchResponseV {
    WatchResponseV { updates: updates_view(updates), deletes: Seq::empty() }
}

/// The batch that carries the given deletes and no updates.
pub open spec fn delete_batch(deletes: Seq<DeleteEvent>) -> WatchResponseV {
    WatchResponseV { updates: Seq::empty(), deletes }
}

/// Whether `after` is `before` with `b` appended to the queue of every watcher.
pub open spec fn published(
    before: Map<u64, Seq<WatchResponseV>>,
    after: Map<u64, Seq<WatchResponseV>>,
    b: WatchResponseV,
) -> bool {
    &&& after.dom() == before.dom()
    &&& forall|id: u64| #[trigger] before.contains_key(id) ==> after[id] == before[id].push(b)
}

/// The batch that carries the given update values and no deletes.
pub open spec fn updates_only(updates: Seq<UpdateEventV>) -> WatchResponseV {
    WatchResponseV { updates, deletes: Seq::empty() }
}

impl WatchHub {
    /// For each registered watcher, the batches that it has yet to take, oldest first.
    pub closed spec fn view(&self) -> Map<u64, Seq<WatchResponseV>> {
        Map::new(
            |id: u64| entry_ids(self.entries@).contains(id),
            |id: u64| batches_view(self.entries@[index_of(entry_ids(self.entries@), id)].pending@),
        )
    }

    /// Ids are unique and below the next one to hand out.
    pub closed spec fn wf(&self) -> bool {
        &&& forall|i: int, j: int|
            0 <= i < j < self.entries@.len() ==> self.entries@[i].id != self.entries@[j].id
        &&& forall|i: int| 0 <= i < self.entries@.len() ==> self.entries@[i].id < self.next_id
    }

    /// The id that the next watcher will get.
    pub closed spec fn next_key(&self) -> u64 {
        self.next_id
    }

    /// Whether another watcher can still be given a fresh id.
    pub open spec fn can_register(&self) -> bool {
        self.next_key() < u64::MAX
    }

    proof fn lemma_index(&self, id: u64)
        requires
            self.wf(),
            entry_ids(self.entries@).contains(id),
        ensures
            0 <= index_of(entry_ids(self.entries@), id) < self.entries@.len(),
            self.entries@[index_of(entry_ids(self.entries@), id)].id == id,
    {
        let ids = entry_ids(self.entries@);
        let k = choose|i: int| 0 <= i < ids.len() && ids[i] == id;
        assert(0 <= k < ids.len() && ids[k] == id);
    }

    /// Whether another watcher can still be given a fresh id.
    pub fn has_room(&self) -> (r: bool)
        ensures
            r == self.can_register(),
    {
        self.next_id < u64::MAX
    }

    /// A hub with no watcher.
    pub fn new() -> (r: WatchHub)
        ensures
            r.wf(),
            r.next_key() == 0,
            r@ == Map::<u64, Seq<WatchResponseV>>::empty(),
    {
        let r = WatchHub { next_id: 0, entries: Vec::new() };
        assert(r@ =~= Map::<u64, Seq<WatchResponseV>>::empty());
        r
    }

    /// Registers a new watcher with an empty queue: every batch published from
    /// now on reaches it.
    pub fn create_watcher(&mut self) -> (r: (Watcher, WatcherInitializer))
        requires
            old(self).wf(),
            old(self).can_register(),
        ensures
            final(self).wf(),
            r.0.key() == r.1.key(),
            r.0.key() == old(self).next_key(),
            final(self).next_key() == old(self).next_key() + 1,
            !old(self)@.contains_key(r.0.key()),
            final(self)@ == old(self)@.insert(r.0.key(), Seq::<WatchResponseV>::empty()),
    {
        let id = self.next_id;
        proof {
            if entry_ids(self.entries@).contains(id) {
                self.lemma_index(id);
            }
        }
        let ghost pre = *self;
        self.entries.push(WatcherEntry { id, pending: Vec::new() });
        self.next_id = id + 1;
        proof {
            let ids0 = entry_ids(pre.entries@);
            let ids1 = entry_ids(self.entries@);
            assert(ids1 =~= ids0.push(id));
            assert forall|x: u64| #[trigger] self@.contains_key(x) == pre@.insert(id, Seq::empty()).contains_key(x) by {
                if ids0.contains(x) {
                    let k = choose|i: int| 0 <= i < ids0.len() && ids0[i] == x;
                    assert(ids1[k] == x);
                }
                if ids1.contains(x) && x != id {
                    let k = choose|i: int| 0 <= i < ids1.len() && ids1[i] == x;
                    assert(ids0[k] == x);
                }
                if x == id {
                    assert(ids1[ids0.len() as int] == x);
                }
            }
            assert forall|x: u64| #[trigger] self@.contains_key(x) implies self@[x] == pre@.insert(id, Seq::empty())[x] by {
                self.lemma_index(x);
                if x != id {
                    pre.lemma_index(x);
                    let a = index_of(ids0, x);
                    let b = index_of(ids1, x);
                    assert(self.entries@[a].id == x);
                } else {
                    assert(batches_view(self.entries@[index_of(ids1, x)].pending@) =~= Seq::empty());
                }
            }
            assert(self@ =~= pre@.insert(id, Seq::empty()));
        }
        (Watcher { id }, WatcherInitializer { id })
    }

    /// Appends `b` to the queue of every registered watcher.
    fn broadcast(&mut self, b: WatchResponse)
        requires
            old(self).wf(),
        ensures
            final(self).wf(),
            final(self).next_key() == old(self).next_key(),
            final(self)@.dom() == old(self)@.dom(),
            forall|id: u64| #[trigger] old(self)@.contains_key(id)
                ==> final(self)@[id] == old(self)@[id].push(b@),
    {
        let ghost pre = *self;
        let n = self.entries.len();
        let mut i: usize = 0;
        while i < n
            invariant
                i <= n,
                n == pre.entries@.len(),
                self.entries@.len() == n,
                self.next_id == pre.next_id,
                forall|j: int| 0 <= j < n ==> (#[trigger] self.entries@[j]).id == pre.entries@[j].id,
                forall|j: int| 0 <= j < i ==> batches_view((#[trigger] self.entries@[j]).pending@)
                    == batches_view(pre.entries@[j].pending@).push(b@),
                forall|j: int| i <= j < n ==> (#[trigger] self.entries@[j]).pending@
                    == pre.entries@[j].pending@,
            decreases n - i,
        {
            let c = b.duplicate();
            let ghost before = self.entries@[i as int].pending@;
            self.entries[i].pending.push(c);
            proof {
                assert(batches_view(self.entries@[i as int].pending@) =~= batches_view(before).push(b@));
            }
            i = i + 1;
        }
        proof {
            assert(entry_ids(self.entries@) =~= entry_ids(pre.entries@));
            assert forall|id: u64| #[trigger] pre@.contains_key(id)
                implies self@[id] == pre@[id].push(b@) by {
                pre.lemma_index(id);
            }
            assert(self@.dom() =~= pre@.dom());
        }
    }

    /// Publishes one batch of updates to every registered watcher.
    pub fn notify_updates(&mut self, updates: Vec<UpdateEvent>)
        requires
            old(self).wf(),
        ensures
            final(self).wf(),
            final(self).next_key() == old(self).next_key(),
            final(self)@.dom() == old(self)@.dom(),
            forall|id: u64| #[trigger] old(self)@.contains_key(id)
                ==> final(self)@[id] == old(self)@[id].push(update_batch(updates@)),
    {
        let b = WatchResponse { updates, deletes: Vec::new() };
        proof {
            assert(b@.deletes =~= Seq::<DeleteEvent>::empty());
        }
        self.broadcast(b);
    }

    /// Publishes one batch of deletes to every registered watcher.
    pub fn notify_deletes(&mut self, deletes: Vec<DeleteEvent>)
        requires
            old(self).wf(),
        ensures
            final(self).wf(),
            final(self).next_key() == old(self).next_key(),
            final(self)@.dom() == old(self)@.dom(),
            forall|id: u64| #[trigger] old(self)@.contains_key(id)
                ==> final(self)@[id] == old(self)@[id].push(delete_batch(deletes@)),
    {
        let b = WatchResponse { updates: Vec::new(), deletes };
        proof {
            assert(b@.updates =~= Seq::<UpdateEventV>::empty());
        }
        self.broadcast(b);
    }

    /// Puts the initial batch of a watcher ahead of everything it has yet to take.
    pub fn set_init_resp(
        &mut self,
        init: WatcherInitializer,
        updates: Vec<UpdateEvent>,
        deletes: Vec<DeleteEvent>,
    )
        requires
            old(self).wf(),
        ensures
            final(self).wf(),
            final(self).next_key() == old(self).next_key(),
            old(self)@.contains_key(init.key()) ==> final(self)@ == old(self)@.insert(
                init.key(),
                seq![WatchResponseV { updates: updates_view(updates@), deletes: deletes@ }]
                    + old(self)@[init.key()],
            ),
            !old(self)@.contains_key(init.key()) ==> final(self)@ == old(self)@,
    {
        let ghost pre = *self;
        let b = WatchResponse { updates, deletes };
        let n = self.entries.len();
        let mut i: usize = 0;
        while i < n
            invariant
                i <= n,
                *self == pre,
                pre.wf(),
                pre == *old(self),
                n == self.entries@.len(),
                forall|j: int| 0 <= j < i ==> (#[trigger] self.entries@[j]).id != init.id,
                b@ == (WatchResponseV { updates: updates_view(updates@), deletes: deletes@ }),
            decreases n - i,
        {
            if self.entries[i].id == init.id {
                let ghost before = self.entries@[i as int].pending@;
                self.entries[i].pending.insert(0, b);
                proof {
                    let ids0 = entry_ids(pre.entries@);
                    assert(entry_ids(self.entries@) =~= ids0);
                    assert(ids0[i as int] == init.id);
                    pre.lemma_index(init.id);
                    assert(batches_view(self.entries@[i as int].pending@) =~= seq![b@] + batches_view(before));
                    assert forall|id: u64| #[trigger] pre@.contains_key(id) && id != init.id
                        implies self@[id] == pre@[id] by {
                        pre.lemma_index(id);
                    }
                    assert(self@ =~= pre@.insert(init.id, seq![b@] + pre@[init.id]));
                }
                return;
            }
            i = i + 1;
        }
        proof {
            if pre@.contains_key(init.id) {
                pre.lemma_index(init.id);
            }
        }
    }

    /// Takes the oldest batch that the watcher has yet to take; `None` when it
    /// has none or is not registered.
    pub fn next_batch(&mut self, w: &Watcher) -> (r: Option<WatchResponse>)
        requires
            old(self).wf(),
        ensures
            final(self).wf(),
            final(self).next_key() == old(self).next_key(),
            old(self)@.contains_key(w.key()) && old(self)@[w.key()].len() > 0 ==> {
                &&& r is Some
                &&& r->0@ == old(self)@[w.key()][0]
                &&& final(self)@ == old(self)@.insert(w.key(), old(self)@[w.key()].drop_first())
            },
            !(old(self)@.contains_key(w.key()) && old(self)@[w.key()].len() > 0) ==> {
                &&& r is None
                &&& final(self)@ == old(self)@
            },
    {
        let ghost pre = *self;
        let n = self.entries.len();
        let mut i: usize = 0;
        while i < n
            invariant
                i <= n,
                *self == pre,
                pre.wf(),
                pre == *old(self),
                n == self.entries@.len(),
                forall|j: int| 0 <= j < i ==> (#[trigger] self.entries@[j]).id != w.id,
            decreases n - i,
        {
            if self.entries[i].id == w.id {
                proof {
                    assert(entry_ids(pre.entries@)[i as int] == w.id);
                    pre.lemma_index(w.id);
                }
                if self.entries[i].pending.len() == 0 {
                    return None;
                }
                let ghost before = self.entries@[i as int].pending@;
                let b = self.entries[i].pending.remove(0);
                proof {
                    assert(entry_ids(self.entries@) =~= entry_ids(pre.entries@));
                    assert(batches_view(self.entries@[i as int].pending@) =~= batches_view(before).drop_first());
                    assert forall|id: u64| #[trigger] pre@.contains_key(id) && id != w.id
                        implies self@[id] == pre@[id] by {
                        pre.lemma_index(id);
                    }
                    assert(self@ =~= pre@.insert(w.id, pre@[w.id].drop_first()));
                }
                return Some(b);
            }
            i = i + 1;
        }
        proof {
            if pre@.contains_key(w.id) {
                pre.lemma_index(w.id);
            }
        }
        None
    }

    /// Deregisters a watcher and discards what it had yet to take.
    pub fn remove_watcher(&mut self, w: Watcher)
        requires
            old(self).wf(),
        ensures
            final(self).wf(),
            final(self).next_key() == old(self).next_key(),
            final(self)@ == old(self)@.remove(w.key()),
    {
        let ghost pre = *self;
        let n = self.entries.len();
        let mut i: usize = 0;
        while i < n
            invariant
                i <= n,
                *self == pre,
                pre.wf(),
                pre == *old(self),
                n == self.entries@.len(),
                forall|j: int| 0 <= j < i ==> (#[trigger] self.entries@[j]).id != w.id,
            decreases n - i,
        {
            if self.entries[i].id == w.id {
                proof {
                    assert(entry_ids(pre.entries@)[i as int] == w.id);
                }
                self.entries.remove(i);
                proof {
                    let ids0 = entry_ids(pre.entries@);
                    let ids1 = entry_ids(self.entries@);
                    assert(ids1 =~= ids0.remove(i as int));
                    assert forall|x: u64| #[trigger] self@.contains_key(x) == pre@.remove(w.id).contains_key(x) by {
                        if ids0.contains(x) && x != w.id {
                            let k = choose|j: int| 0 <= j < ids0.len() && ids0[j] == x;
                            if k < i { assert(ids1[k] == x); } else { assert(ids1[k - 1] == x); }
                        }
                        if ids1.contains(x) {
                            let k = choose|j: int| 0 <= j < ids1.len() && ids1[j] == x;
                            if k < i { assert(ids0[k] == x); } else { assert(ids0[k + 1] == x); }
                        }
                    }
                    assert forall|x: u64| #[trigger] self@.contains_key(x) implies self@[x] == pre@[x] by {
                        self.lemma_index(x);
                        pre.lemma_index(x);
                        let k = index_of(ids1, x);
                        if k < i { assert(self.entries@[k] == pre.entries@[k]); } else { assert(self.entries@[k] == pre.entries@[k + 1]); }
                    }
                    assert(self@ =~= pre@.remove(w.id));
                }
                return;
            }
            i = i + 1;
        }
        proof {
            if pre@.contains_key(w.id) {
                pre.lemma_index(w.id);
            }
            assert(self@ =~= pre@.remove(w.id));
        }
    }
}

/// Publishing the batches `bs` one after another (`hs` holds the queues
/// before and after each) leaves every watcher that was registered at the
/// start with exactly those batches appended, in publication order, and
/// registers nobody.
pub proof fn lemma_published_in_order(hs: Seq<Map<u64, Seq<WatchResponseV>>>, bs: Seq<WatchResponseV>)
    requires
        hs.len() == bs.len() + 1,
        forall|i: int| 0 <= i < bs.len() ==> published(hs[i], #[trigger] hs[i + 1], bs[i]),
    ensures
        hs.last().dom() == hs[0].dom(),
        forall|id: u64| #[trigger] hs[0].contains_key(id) ==> hs.last()[id] == hs[0][id] + bs,
    decreases bs.len(),
{
    if bs.len() > 0 {
        let hp = hs.drop_last();
        let bp = bs.drop_last();
        assert forall|i: int| 0 <= i < bp.len() implies published(hp[i], #[trigger] hp[i + 1], bp[i]) by {
            assert(hp[i] == hs[i] && hp[i + 1] == hs[i + 1]);
        }
        lemma_published_in_order(hp, bp);
        let n = bs.len() - 1;
        assert(published(hs[n], hs[n + 1], bs[n]));
        assert forall|id: u64| #[trigger] hs[0].contains_key(id) implies hs.last()[id] == hs[0][id] + bs by {
            assert(hp[0] == hs[0]);
            assert(hp.last() == hs[n]);
            assert(hs[n].contains_key(id));
            assert(hs[0][id] + bs =~= (hs[0][id] + bp).push(bs[n]));
        }
    }
}

} // verus!

//! Generational object store.
//!
//! A [`Storage`] hands out a [`StoreKey`] for every inserted value.  A key
//! names its slot only while that slot holds the same value: removing the
//! value frees the slot, and any later occupant of the slot is stamped with a
//! strictly larger generation, so a stale key is detected forever instead of
//! silently aliasing a new object.
//!
//! Exclusive access to one slot goes through a [`StorageGuard`]: taking the
//! guard checks the value out of the slot, and releasing the guard puts it
//! back.  While a guard is out, the slot is locked; slots lock independently,
//! so guards for distinct keys can be held at the same time.  Re-acquiring a
//! key that is already locked on the same call path would deadlock, so the
//! operations require the key to be unlocked.

use vstd::prelude::*;

verus! {

/// Generational key into a [`Storage`]: a slot index plus the generation the
/// slot carried when the value was inserted.
#[derive(Clone, Copy, Debug, PartialEq, Eq, Hash, Structural)]
pub struct StoreKey {
    pub index: usize,
    pub generation: u64,
}

/// One table slot: empty, holding a value, or lent out through a guard.
enum Slot<T> {
    Free,
    Occupied { generation: u64, value: T },
    Lent { generation: u64 },
}

/// Exclusive access to one slot's value.  The value lives in the guard until
/// the guard is given back with [`Storage::release`]; other slots stay
/// accessible meanwhile.
pub struct StorageGuard<T> {
    pub key: StoreKey,
    pub value: T,
}

/// Typed table of physics resources with generational keys and per-slot
/// exclusive-access guards.  When every slot is taken, the table grows by the
/// configured increment.
pub struct Storage<T> {
    slots: Vec<Slot<T>>,
    next_generation: u64,
    growing_size: usize,
}

impl<T> Storage<T> {
    /// Number of slots currently allocated.
    pub closed spec fn capacity(self) -> nat {
        self.slots@.len()
    }

    /// The generation the next inserted value will be stamped with.  Strictly
    /// larger than the generation of every slot ever occupied, which is what
    /// keeps stale keys from ever naming a later occupant.
    pub closed spec fn fresh_generation(self) -> u64 {
        self.next_generation
    }

    /// How many slots are added when the table is grown.
    pub closed spec fn growth_increment(self) -> nat {
        if self.growing_size == 0 {
            1nat
        } else {
            self.growing_size as nat
        }
    }

    /// Every slot is taken, so the next insert must grow the table.
    pub closed spec fn is_full(self) -> bool {
        forall|i: int| 0 <= i < self.slots@.len() ==> !((#[trigger] self.slots@[i]) is Free)
    }

    /// The key names a value owned by this table (possibly checked out
    /// through a guard right now).
    pub closed spec fn live(self, k: StoreKey) -> bool {
        k.index < self.slots@.len() && match self.slots@[k.index as int] {
            Slot::Occupied { generation, .. } => generation == k.generation,
            Slot::Lent { generation } => generation == k.generation,
            Slot::Free => false,
        }
    }

    /// The key's value is currently checked out through a guard.
    pub closed spec fn locked(self, k: StoreKey) -> bool {
        k.index < self.slots@.len() && match self.slots@[k.index as int] {
            Slot::Lent { generation } => generation == k.generation,
            _ => false,
        }
    }

    /// The key names a value that is in its slot, ready to be read or
    /// checked out.
    pub open spec fn present(self, k: StoreKey) -> bool {
        self.live(k) && !self.locked(k)
    }

    spec fn slot_value(self, k: StoreKey) -> T {
        match self.slots@[k.index as int] {
            Slot::Occupied { value, .. } => value,
            _ => vstd::pervasive::arbitrary(),
        }
    }

    /// The table as a map from each present key to its value.
    pub closed spec fn contents(self) -> Map<StoreKey, T> {
        Map::new(|k: StoreKey| self.present(k), |k: StoreKey| self.slot_value(k))
    }

    /// The key was issued at some earlier point and can never name a value
    /// again: every occupant takes a fresh generation, so a key that is not
    /// live and whose generation is below the fresh one stays invalid through
    /// every later operation.
    pub open spec fn stale(self, k: StoreKey) -> bool {
        k.generation < self.fresh_generation() && !self.live(k)
    }

    spec fn slot_wf(s: Slot<T>, next_generation: u64) -> bool {
        match s {
            Slot::Occupied { generation, .. } => generation < next_generation,
            Slot::Lent { generation } => generation < next_generation,
            Slot::Free => true,
        }
    }

    /// Internal well-formedness: every occupant's generation is below the
    /// fresh one.
    pub closed spec fn wf(self) -> bool {
        forall|i: int|
            0 <= i < self.slots@.len() ==> Self::slot_wf(
                #[trigger] self.slots@[i],
                self.next_generation,
            )
    }

    /// Create a storage with `initial_capacity` slots.  When the table is
    /// full, an insert grows it by `growing_size` slots (by one slot if the
    /// increment is zero).
    pub fn new(initial_capacity: usize, growing_size: usize) -> (s: Storage<T>)
        ensures
            s.wf(),
            s.contents() == Map::<StoreKey, T>::empty(),
            forall|k: StoreKey| !(#[trigger] s.live(k)),
            forall|k: StoreKey| !(#[trigger] s.locked(k)),
            forall|k: StoreKey| !(#[trigger] s.stale(k)),
            s.capacity() == initial_capacity,
            s.fresh_generation() == 0,
            s.growth_increment() == if growing_size == 0 {
                1nat
            } else {
                growing_size as nat
            },
    {
        let mut slots: Vec<Slot<T>> = Vec::new();
        let mut i: usize = 0;
        while i < initial_capacity
            invariant
                i <= initial_capacity,
                slots@.len() == i,
                forall|j: int| 0 <= j < i ==> (#[trigger] slots@[j]) is Free,
            decreases initial_capacity - i,
        {
            slots.push(Slot::Free);
            i = i + 1;
        }
        let s = Storage { slots, next_generation: 0, growing_size };
        proof {
            assert(s.contents() =~= Map::<StoreKey, T>::empty());
        }
        s
    }

    fn slot_is_free(s: &Slot<T>) -> (r: bool)
        ensures
            r == (*s is Free),
    {
        match s {
            Slot::Free => true,
            _ => false,
        }
    }

    /// Insert a value and return the key that names it.  The key is fresh: it
    /// was neither live nor stale before, every other key keeps its value,
    /// and every stale key stays stale.
    pub fn insert(&mut self, value: T) -> (k: StoreKey)
        requires
            old(self).wf(),
            old(self).fresh_generation() < u64::MAX,
        ensures
            final(self).wf(),
            final(self).live(k),
            !final(self).locked(k),
            !old(self).live(k),
            !old(self).stale(k),
            k.generation == old(self).fresh_generation(),
            final(self).contents() == old(self).contents().insert(k, value),
            final(self).fresh_generation() == old(self).fresh_generation() + 1,
            forall|k2: StoreKey| k2 != k ==> #[trigger] final(self).live(k2) == old(self).live(k2),
            forall|k2: StoreKey| k2 != k ==> #[trigger] final(self).locked(k2) == old(self).locked(k2),
            forall|k2: StoreKey| old(self).stale(k2) ==> #[trigger] final(self).stale(k2),
            final(self).capacity() == if old(self).is_full() {
                old(self).capacity() + old(self).growth_increment()
            } else {
                old(self).capacity()
            },
    {
        let n = self.slots.len();
        let mut i: usize = 0;
        while i < n && !Self::slot_is_free(&self.slots[i])
            invariant
                i <= n,
                n == self.slots@.len(),
                forall|j: int| 0 <= j < i ==> !((#[trigger] self.slots@[j]) is Free),
            decreases n - i,
        {
            i = i + 1;
        }
        if i == n {
            // The table is full: grow it by the configured increment.  The
            // first added slot receives the value.
            let grow = if self.growing_size == 0 {
                1
            } else {
                self.growing_size
            };
            let mut added: usize = 0;
            while added < grow
                invariant
                    added <= grow,
                    self.slots@.len() == n + added,
                    self.next_generation == old(self).next_generation,
                    self.growing_size == old(self).growing_size,
                    forall|j: int| 0 <= j < n ==> self.slots@[j] == old(self).slots@[j],
                    forall|j: int| n <= j < n + added ==> (#[trigger] self.slots@[j]) is Free,
                decreases grow - added,
            {
                self.slots.push(Slot::Free);
                added = added + 1;
            }
        }
        let g = self.next_generation;
        self.slots[i] = Slot::Occupied { generation: g, value };
        self.next_generation = g + 1;
        let k = StoreKey { index: i, generation: g };
        proof {
            assert forall|k2: StoreKey| old(self).stale(k2) implies #[trigger] self.stale(k2) by {
                if k2.index == k.index {
                    assert(!self.live(k2));
                }
            }
            assert(self.contents() =~= old(self).contents().insert(k, value));
        }
        k
    }

    /// Remove the value named by `k` and free its slot.  Returns `None`, with
    /// nothing changed, when the key is stale or unknown; a dangling key must
    /// never abort the caller.  A removed key becomes stale and stays so.
    pub fn remove(&mut self, k: StoreKey) -> (r: Option<T>)
        requires
            old(self).wf(),
            !old(self).locked(k),
        ensures
            final(self).wf(),
            r is Some == old(self).live(k),
            !final(self).live(k),
            match r {
                Some(v) => v == old(self).contents()[k],
                None => true,
            },
            final(self).contents() == old(self).contents().remove(k),
            final(self).fresh_generation() == old(self).fresh_generation(),
            old(self).live(k) ==> final(self).stale(k),
            forall|k2: StoreKey| k2 != k ==> #[trigger] final(self).live(k2) == old(self).live(k2),
            forall|k2: StoreKey| #[trigger] final(self).locked(k2) == old(self).locked(k2),
            forall|k2: StoreKey| old(self).stale(k2) ==> #[trigger] final(self).stale(k2),
    {
        if k.index >= self.slots.len() {
            proof {
                assert(self.contents() =~= self.contents().remove(k));
            }
            return None;
        }
        let found = match &self.slots[k.index] {
            Slot::Occupied { generation, .. } => *generation == k.generation,
            _ => false,
        };
        if !found {
            proof {
                assert(self.contents() =~= self.contents().remove(k));
            }
            return None;
        }
        let mut taken = Slot::Free;
        core::mem::swap(&mut taken, &mut self.slots[k.index]);
        proof {
            assert(self.contents() =~= old(self).contents().remove(k));
        }
        match taken {
            Slot::Occupied { value, .. } => Some(value),
            _ => {
                proof {
                    assert(false);
                }
                None
            },
        }
    }

    /// Whether `k` currently names a value owned by this table.
    pub fn has(&self, k: StoreKey) -> (r: bool)
        ensures
            r == self.live(k),
    {
        if k.index >= self.slots.len() {
            return false;
        }
        match &self.slots[k.index] {
            Slot::Occupied { generation, .. } => *generation == k.generation,
            Slot::Lent { generation } => *generation == k.generation,
            Slot::Free => false,
        }
    }

    /// Shared read of the value named by `k`.  Returns `None` when the key is
    /// stale or unknown, or while the value is checked out through a guard.
    pub fn get(&self, k: StoreKey) -> (r: Option<&T>)
        ensures
            r is Some == self.present(k),
            match r {
                Some(v) => *v == self.contents()[k],
                None => true,
            },
    {
        if k.index >= self.slots.len() {
            return None;
        }
        match &self.slots[k.index] {
            Slot::Occupied { generation, value } => {
                if *generation == k.generation {
                    Some(value)
                } else {
                    None
                }
            },
            _ => None,
        }
    }

    /// Check the value named by `k` out of its slot for exclusive use.  The
    /// slot stays locked, and every other slot untouched, until the guard is
    /// given back with [`Storage::release`].  Acquiring a key that is already
    /// locked on the same call path would deadlock, so the key must be
    /// unlocked.  Returns `None`, with nothing changed, when the key is stale
    /// or unknown.
    pub fn get_mut(&mut self, k: StoreKey) -> (r: Option<StorageGuard<T>>)
        requires
            old(self).wf(),
            !old(self).locked(k),
        ensures
            final(self).wf(),
            r is Some == old(self).live(k),
            match r {
                Some(g) => g.key == k && g.value == old(self).contents()[k] && final(self).locked(k),
                None => *final(self) == *old(self),
            },
            final(self).contents() == old(self).contents().remove(k),
            final(self).fresh_generation() == old(self).fresh_generation(),
            forall|k2: StoreKey| #[trigger] final(self).live(k2) == old(self).live(k2),
            forall|k2: StoreKey| k2 != k ==> #[trigger] final(self).locked(k2) == old(self).locked(k2),
            forall|k2: StoreKey| old(self).stale(k2) ==> #[trigger] final(self).stale(k2),
    {
        if k.index >= self.slots.len() {
            proof {
                assert(self.contents() =~= self.contents().remove(k));
            }
            return None;
        }
        let found = match &self.slots[k.index] {
            Slot::Occupied { generation, .. } => *generation == k.generation,
            _ => false,
        };
        if !found {
            proof {
                assert(self.contents() =~= self.contents().remove(k));
            }
            return None;
        }
        let mut taken = Slot::Lent { generation: k.generation };
        core::mem::swap(&mut taken, &mut self.slots[k.index]);
        proof {
            assert(self.contents() =~= old(self).contents().remove(k));
        }
        match taken {
            Slot::Occupied { value, .. } => Some(StorageGuard { key: k, value }),
            _ => {
                proof {
                    assert(false);
                }
                None
            },
        }
    }

    /// Give a guard's value back to its slot, unlocking the slot.
    pub fn release(&mut self, g: StorageGuard<T>)
        requires
            old(self).wf(),
            old(self).locked(g.key),
        ensures
            final(self).wf(),
            final(self).contents() == old(self).contents().insert(g.key, g.value),
            final(self).live(g.key),
            !final(self).locked(g.key),
            final(self).fresh_generation() == old(self).fresh_generation(),
            forall|k2: StoreKey| #[trigger] final(self).live(k2) == old(self).live(k2),
            forall|k2: StoreKey| k2 != g.key ==> #[trigger] final(self).locked(k2) == old(self).locked(k2),
            forall|k2: StoreKey| old(self).stale(k2) ==> #[trigger] final(self).stale(k2),
    {
        let StorageGuard { key, value } = g;
        self.slots[key.index] = Slot::Occupied { generation: key.generation, value };
        proof {
            assert(self.contents() =~= old(self).contents().insert(g.key, g.value));
        }
    }

    /// Law: a stale key never names a value again.  Staleness means the
    /// key's generation lies below the table's fresh generation while the
    /// key is not live; every mutating operation's contract preserves
    /// staleness, and a removed live key becomes stale, so once a key has
    /// been removed every later lookup of it fails — even after a later
    /// insert reuses the same slot index, since the new occupant is stamped
    /// with a strictly larger generation.
    pub proof fn lemma_stale_key_stays_invalid(self, k: StoreKey)
        requires
            self.stale(k),
        ensures
            !self.live(k),
            !self.present(k),
            !self.contents().dom().contains(k),
    {
    }

    /// Law: the key the next insert will issue collides with nothing ever
    /// issued: it is neither live nor stale now, and every live or stale
    /// key differs from it.
    pub proof fn lemma_fresh_generation_key_is_new(self, k: StoreKey)
        requires
            self.wf(),
            k.generation == self.fresh_generation(),
        ensures
            !self.live(k),
            !self.stale(k),
            forall|k2: StoreKey| #[trigger] self.live(k2) ==> k2 != k,
            forall|k2: StoreKey| #[trigger] self.stale(k2) ==> k2 != k,
    {
        assert forall|k2: StoreKey| #[trigger] self.live(k2) implies k2 != k by {
            if k2 == k {
                assert(Self::slot_wf(self.slots@[k.index as int], self.next_generation));
            }
        }
    }

    /// A checked-out key still names a value of the table.
    pub proof fn lemma_locked_implies_live(self, k: StoreKey)
        ensures
            self.locked(k) ==> self.live(k),
    {
    }

    /// Snapshot of every live key, in slot order.  Iterating the snapshot
    /// instead of the table itself keeps iteration free to lock or mutate
    /// individual slots as it goes.
    pub fn live_keys(&self) -> (r: Vec<StoreKey>)
        ensures
            forall|j: int| 0 <= j < r@.len() ==> self.live(#[trigger] r@[j]),
            forall|k: StoreKey| #[trigger] self.live(k) ==> r@.contains(k),
            forall|j1: int, j2: int| 0 <= j1 < j2 < r@.len() ==> r@[j1].index < r@[j2].index,
    {
        let mut out: Vec<StoreKey> = Vec::new();
        let n = self.slots.len();
        let mut i: usize = 0;
        while i < n
            invariant
                i <= n,
                n == self.slots@.len(),
                forall|j: int| 0 <= j < out@.len() ==> self.live(#[trigger] out@[j]),
                forall|j: int| 0 <= j < out@.len() ==> (#[trigger] out@[j]).index < i,
                forall|k: StoreKey| k.index < i && #[trigger] self.live(k) ==> out@.contains(k),
                forall|j1: int, j2: int|
                    0 <= j1 < j2 < out@.len() ==> out@[j1].index < out@[j2].index,
            decreases n - i,
        {
            let generation_opt = match &self.slots[i] {
                Slot::Occupied { generation, .. } => Some(*generation),
                Slot::Lent { generation } => Some(*generation),
                Slot::Free => None,
            };
            if let Some(generation) = generation_opt {
                let k = StoreKey { index: i, generation };
                let ghost pre = out@;
                out.push(k);
                proof {
                    assert forall|k2: StoreKey|
                        k2.index < i + 1 && #[trigger] self.live(k2) implies out@.contains(k2) by {
                        if k2.index < i {
                            let j = choose|j: int| 0 <= j < pre.len() && pre[j] == k2;
                            assert(out@[j] == k2);
                        } else {
                            assert(k2 == k);
                            assert(out@[out@.len() - 1] == k);
                        }
                    }
                }
            }
            i = i + 1;
        }
        out
    }
}

} // verus!

//! The tracking registry: a fixed-capacity slot table of (address, size)
//! records, a dense active set of live slot indices, and a LIFO free list
//! of reusable indices.

use vstd::prelude::*;

verus! {

/// Minimum allocation size, in bytes, for an allocation to be tracked.
pub const TRACK_THRESHOLD: usize = 64;

/// Reference capacity: how many allocations the registry tracks at most.
pub const MAX_TRACKED: usize = 65536;

/// One bookkeeping record: the address and size of a tracked allocation.
/// Both zero means the slot is unused.
#[derive(Clone, Copy, Debug, PartialEq, Eq, Structural)]
pub struct Slot {
    pub addr: usize,
    pub size: usize,
}

/// The mathematical state of a registry.
#[verifier::ext_equal]
pub struct RegistryView {
    pub slots: Seq<Slot>,
    pub active: Seq<usize>,
    pub free: Seq<usize>,
    pub next_fresh: usize,
}

/// The tracking registry.
pub struct Registry {
    slots: Vec<Slot>,
    active: Vec<usize>,
    free: Vec<usize>,
    next_fresh: usize,
}

impl View for Registry {
    type V = RegistryView;

    closed spec fn view(&self) -> RegistryView {
        RegistryView {
            slots: self.slots@,
            active: self.active@,
            free: self.free@,
            next_fresh: self.next_fresh,
        }
    }
}

pub open spec fn spec_empty_slot() -> Slot {
    Slot { addr: 0, size: 0 }
}

impl RegistryView {
    /// The configured capacity: the fixed length of the slot table.
    pub open spec fn capacity(self) -> int {
        self.slots.len() as int
    }

    /// Structural well-formedness: `next_fresh` counts the slot indices
    /// ever handed out; every such index sits in exactly one of the
    /// active set and the free list.
    pub open spec fn wf(self) -> bool {
        &&& self.slots.len() <= usize::MAX
        &&& self.next_fresh <= self.slots.len()
        &&& forall|i: int| 0 <= i < self.active.len() ==> (#[trigger] self.active[i]) < self.next_fresh
        &&& forall|i: int| 0 <= i < self.free.len() ==> (#[trigger] self.free[i]) < self.next_fresh
        &&& forall|i: int, j: int|
            0 <= i < j < self.active.len() ==> self.active[i] != self.active[j]
        &&& forall|i: int, j: int| 0 <= i < j < self.free.len() ==> self.free[i] != self.free[j]
        &&& forall|i: int, j: int|
            0 <= i < self.active.len() && 0 <= j < self.free.len() ==> self.active[i]
                != self.free[j]
        &&& self.active.len() + self.free.len() == self.next_fresh
    }
}

impl Registry {
    /// A fresh registry able to track up to `capacity` allocations.
    pub fn with_capacity(capacity: usize) -> (r: Registry)
        ensures
            r@.wf(),
            r@.slots.len() == capacity,
            r@.active.len() == 0,
            r@.free.len() == 0,
            r@.next_fresh == 0,
            tracked_inv(r@),
            forall|i: int| 0 <= i < capacity ==> r@.slots[i] == spec_empty_slot(),
    {
        let mut slots: Vec<Slot> = Vec::new();
        let mut i: usize = 0;
        while i < capacity
            invariant
                i <= capacity,
                slots@.len() == i,
                forall|j: int| 0 <= j < i ==> slots@[j] == spec_empty_slot(),
            decreases capacity - i,
        {
            slots.push(Slot { addr: 0, size: 0 });
            i = i + 1;
        }
        Registry { slots, active: Vec::new(), free: Vec::new(), next_fresh: 0 }
    }

    /// A fresh registry at the reference capacity.
    pub fn new() -> (r: Registry)
        ensures
            r@.wf(),
            r@.slots.len() == MAX_TRACKED,
            r@.active.len() == 0,
            r@.free.len() == 0,
            r@.next_fresh == 0,
            tracked_inv(r@),
    {
        Registry::with_capacity(MAX_TRACKED)
    }

    /// Number of allocations currently tracked.
    pub fn active_len(&self) -> (n: usize)
        ensures
            n == self@.active.len(),
    {
        self.active.len()
    }

    /// Number of slot indices waiting for reuse.
    pub fn free_len(&self) -> (n: usize)
        ensures
            n == self@.free.len(),
    {
        self.free.len()
    }

    /// The slot record at `slot`.
    pub fn slot(&self, slot: usize) -> (s: Slot)
        requires
            slot < self@.slots.len(),
        ensures
            s == self@.slots[slot as int],
    {
        self.slots[slot]
    }

    /// The slot index at position `i` of the active set.
    pub fn active_at(&self, i: usize) -> (slot: usize)
        requires
            i < self@.active.len(),
        ensures
            slot == self@.active[i as int],
    {
        self.active[i]
    }
}

/// Index of the first active-set position whose slot records `addr`,
/// searching from position `from`; -1 when there is none.
pub open spec fn first_match(v: RegistryView, addr: usize, from: int) -> int
    decreases v.active.len() - from,
{
    if from < 0 || from >= v.active.len() {
        -1
    } else if v.slots[v.active[from] as int].addr == addr {
        from
    } else {
        first_match(v, addr, from + 1)
    }
}

/// Whether some active slot records `addr`.
pub open spec fn spec_tracked(v: RegistryView, addr: usize) -> bool {
    first_match(v, addr, 0) >= 0
}

/// The active set after removing position `i` by swap-with-last.
pub open spec fn swap_removed(s: Seq<usize>, i: int) -> Seq<usize> {
    s.update(i, s.last()).drop_last()
}

/// Which slot index `alloc_slot` hands out, if any: the top of the free
/// list, else a fresh index while capacity remains.
pub open spec fn spec_acquire(v: RegistryView) -> Option<usize> {
    if v.free.len() > 0 {
        Some(v.free.last())
    } else if v.next_fresh < v.slots.len() {
        Some(v.next_fresh)
    } else {
        None
    }
}

/// The registry state after an allocation of `size` bytes at `addr`:
/// unchanged when the allocation is null, below the tracking threshold
/// or the registry is full; otherwise the acquired slot records
/// (addr, size) and joins the active set.
pub open spec fn spec_on_alloc(v: RegistryView, addr: usize, size: usize) -> RegistryView {
    if addr == 0 || size < TRACK_THRESHOLD {
        v
    } else {
        match spec_acquire(v) {
            None => v,
            Some(idx) => RegistryView {
                slots: v.slots.update(idx as int, Slot { addr, size }),
                active: v.active.push(idx),
                free: if v.free.len() > 0 {
                    v.free.drop_last()
                } else {
                    v.free
                },
                next_fresh: if v.free.len() > 0 {
                    v.next_fresh
                } else {
                    (v.next_fresh + 1) as usize
                },
            },
        }
    }
}

/// The registry state after a deallocation at `addr`: unchanged when no
/// active slot records `addr`; otherwise the first matching entry leaves
/// the active set by swap-with-last, its slot is zeroed, and its index
/// returns to the free list.
pub open spec fn spec_on_dealloc(v: RegistryView, addr: usize) -> RegistryView {
    let i = first_match(v, addr, 0);
    if i < 0 {
        v
    } else {
        let slot = v.active[i];
        RegistryView {
            slots: v.slots.update(slot as int, spec_empty_slot()),
            active: swap_removed(v.active, i),
            free: if v.free.len() < v.slots.len() {
                v.free.push(slot)
            } else {
                v.free
            },
            next_fresh: v.next_fresh,
        }
    }
}

/// Takes a reusable slot index: from the free list when one is there,
/// else a fresh one while capacity remains; the taken index is appended
/// to the active set. Returns `None`, changing nothing, exactly when the
/// free list is empty and every slot index has been handed out.
pub fn alloc_slot(reg: &mut Registry) -> (r: Option<usize>)
    requires
        old(reg)@.wf(),
    ensures
        final(reg)@.wf(),
        final(reg)@.slots == old(reg)@.slots,
        match r {
            Some(idx) => {
                &&& idx < old(reg)@.slots.len()
                &&& final(reg)@.active == old(reg)@.active.push(idx)
                &&& if old(reg)@.free.len() > 0 {
                    &&& idx == old(reg)@.free.last()
                    &&& final(reg)@.free == old(reg)@.free.drop_last()
                    &&& final(reg)@.next_fresh == old(reg)@.next_fresh
                } else {
                    &&& idx == old(reg)@.next_fresh
                    &&& final(reg)@.free == old(reg)@.free
                    &&& final(reg)@.next_fresh == old(reg)@.next_fresh + 1
                }
            },
            None => {
                &&& final(reg)@ == old(reg)@
                &&& old(reg)@.free.len() == 0
                &&& old(reg)@.next_fresh == old(reg)@.slots.len()
            },
        },
{
    let ghost v0 = reg@;
    if let Some(idx) = reg.free.pop() {
        reg.active.push(idx);
        proof {
            assert(idx == v0.free[v0.free.len() - 1]);
            assert(idx < v0.next_fresh);
            assert forall|i: int| 0 <= i < v0.active.len() implies (#[trigger] v0.active[i])
                != idx by {
                assert(v0.active[i] != v0.free[v0.free.len() - 1]);
            }
            assert forall|j: int| 0 <= j < v0.free.len() - 1 implies (#[trigger] v0.free[j])
                != idx by {
                assert(v0.free[j] != v0.free[v0.free.len() - 1]);
            }
            assert(reg@.active == v0.active.push(idx));
            assert(reg@.free == v0.free.drop_last());
            assert(reg@.wf());
        }
        Some(idx)
    } else if reg.next_fresh < reg.slots.len() {
        let idx: usize = reg.next_fresh;
        reg.next_fresh = reg.next_fresh + 1;
        reg.active.push(idx);
        proof {
            assert(reg@.active == v0.active.push(idx));
            assert(reg@.wf());
        }
        Some(idx)
    } else {
        proof {
            assert(reg@ =~= v0);
        }
        None
    }
}

/// Zeroes the slot's record and pushes the index onto the free list
/// (silently dropping it when the free list is somehow at capacity).
/// Removal from the active set is the caller's responsibility.
pub fn free_slot(reg: &mut Registry, slot: usize)
    requires
        slot < old(reg)@.slots.len(),
    ensures
        final(reg)@.slots == old(reg)@.slots.update(slot as int, spec_empty_slot()),
        final(reg)@.active == old(reg)@.active,
        final(reg)@.next_fresh == old(reg)@.next_fresh,
        final(reg)@.free == if old(reg)@.free.len() < old(reg)@.slots.len() {
            old(reg)@.free.push(slot)
        } else {
            old(reg)@.free
        },
{
    let zero = Slot { addr: 0, size: 0 };
    reg.slots[slot] = zero;
    if reg.free.len() < reg.slots.len() {
        reg.free.push(slot);
    }
}

/// Scans the live prefix of the active set for the first entry whose
/// slot records `addr`; on a match removes that entry by swap-with-last
/// and returns the slot index (which the caller must still release).
/// Returns `None`, changing nothing, exactly when `addr` is untracked.
pub fn find_and_remove_by_address(reg: &mut Registry, addr: usize) -> (r: Option<usize>)
    requires
        old(reg)@.wf(),
    ensures
        final(reg)@.slots == old(reg)@.slots,
        final(reg)@.free == old(reg)@.free,
        final(reg)@.next_fresh == old(reg)@.next_fresh,
        match r {
            Some(slot) => {
                let i = first_match(old(reg)@, addr, 0);
                &&& spec_tracked(old(reg)@, addr)
                &&& 0 <= i < old(reg)@.active.len()
                &&& slot == old(reg)@.active[i]
                &&& slot < old(reg)@.next_fresh
                &&& old(reg)@.slots[slot as int].addr == addr
                &&& final(reg)@.active == swap_removed(old(reg)@.active, i)
                &&& final(reg)@.active.len() == old(reg)@.active.len() - 1
            },
            None => {
                &&& final(reg)@ == old(reg)@
                &&& !spec_tracked(old(reg)@, addr)
            },
        },
{
    let ghost v0 = reg@;
    let len: usize = reg.active.len();
    let mut i: usize = 0;
    let mut found: bool = false;
    while i < len && !found
        invariant
            reg@ == v0,
            v0.wf(),
            len == v0.active.len(),
            i <= len,
            first_match(v0, addr, 0) == first_match(v0, addr, i as int),
            found ==> i < len && v0.slots[v0.active[i as int] as int].addr == addr,
        decreases len - i + (if found {
            0int
        } else {
            1int
        }),
    {
        let slot: usize = reg.active[i];
        if reg.slot(slot).addr == addr {
            found = true;
        } else {
            i = i + 1;
        }
    }
    if found {
        proof {
            assert(first_match(v0, addr, i as int) == i as int);
        }
        let slot: usize = reg.active.swap_remove(i);
        Some(slot)
    } else {
        proof {
            assert(first_match(v0, addr, i as int) == -1);
        }
        None
    }
}

/// The tracking half of an allocation of `size` bytes that came back at
/// address `addr`: when the allocation is non-null and at least the
/// tracking threshold, acquire a slot and record (addr, size) in it.
/// Registry exhaustion is silent: the allocation is simply not tracked.
pub fn on_alloc(reg: &mut Registry, addr: usize, size: usize) -> (r: Option<usize>)
    requires
        old(reg)@.wf(),
    ensures
        final(reg)@.wf(),
        final(reg)@ == spec_on_alloc(old(reg)@, addr, size),
        r == if addr == 0 || size < TRACK_THRESHOLD {
            None::<usize>
        } else {
            spec_acquire(old(reg)@)
        },
        addr == 0 || size < TRACK_THRESHOLD ==> final(reg)@ == old(reg)@,
        r is Some ==> final(reg)@.active.len() == old(reg)@.active.len() + 1,
        r is None ==> final(reg)@.active.len() == old(reg)@.active.len(),
        tracked_inv(old(reg)@) && !spec_tracked(old(reg)@, addr) ==> tracked_inv(final(reg)@),
        tracked_inv(old(reg)@) && !spec_tracked(old(reg)@, addr) && r is Some ==> spec_tracked(
            final(reg)@,
            addr,
        ),
{
    let ghost v0 = reg@;
    proof {
        if tracked_inv(v0) && !spec_tracked(v0, addr) {
            lemma_on_alloc_tracked_inv(v0, addr, size);
        }
    }
    if addr == 0 || size < TRACK_THRESHOLD {
        return None;
    }
    match alloc_slot(reg) {
        Some(idx) => {
            reg.slots[idx] = Slot { addr, size };
            proof {
                assert(reg@ =~= spec_on_alloc(v0, addr, size));
            }
            Some(idx)
        },
        None => {
            proof {
                assert(reg@ =~= spec_on_alloc(v0, addr, size));
            }
            None
        },
    }
}

/// The tracking half of a deallocation at address `addr`: when an
/// active slot records `addr`, remove it from the active set, zero it
/// and return its index to the free list. Deallocating an untracked
/// address changes nothing and is not an error.
pub fn on_dealloc(reg: &mut Registry, addr: usize) -> (r: Option<usize>)
    requires
        old(reg)@.wf(),
    ensures
        final(reg)@.wf(),
        final(reg)@ == spec_on_dealloc(old(reg)@, addr),
        r == (if spec_tracked(old(reg)@, addr) {
            Some(old(reg)@.active[first_match(old(reg)@, addr, 0)])
        } else {
            None::<usize>
        }),
        !spec_tracked(old(reg)@, addr) ==> final(reg)@ == old(reg)@ && r is None,
        spec_tracked(old(reg)@, addr) ==> {
            &&& r is Some
            &&& final(reg)@.active.len() == old(reg)@.active.len() - 1
            &&& final(reg)@.free.len() == old(reg)@.free.len() + 1
        },
        tracked_inv(old(reg)@) ==> tracked_inv(final(reg)@) && !spec_tracked(final(reg)@, addr),
{
    let ghost v0 = reg@;
    proof {
        if tracked_inv(v0) {
            lemma_on_dealloc_tracked_inv(v0, addr);
        }
    }
    match find_and_remove_by_address(reg, addr) {
        Some(slot) => {
            proof {
                assert(v0.active.len() >= 1);
                assert(v0.free.len() < v0.slots.len());
            }
            free_slot(reg, slot);
            proof {
                let i = first_match(v0, addr, 0);
                assert(0 <= i < v0.active.len());
                assert(reg@ =~= spec_on_dealloc(v0, addr));
                lemma_swap_removed_wf(v0, i, slot);
                assert(reg@.wf());
            }
            Some(slot)
        },
        None => None,
    }
}

/// Live-prefix invariant: every active slot records a live allocation —
/// nonzero address, size at least the tracking threshold — with an
/// address no other active slot records; every slot index on the free
/// list has a zeroed record. The hook operations `on_alloc` and
/// `on_dealloc` preserve it as long as every registered address is
/// fresh, as the addresses of genuinely live allocations are.
pub open spec fn tracked_inv(v: RegistryView) -> bool {
    &&& forall|i: int|
        0 <= i < v.active.len() ==> ((#[trigger] v.slots[v.active[i] as int]).addr != 0
            && v.slots[v.active[i] as int].size >= TRACK_THRESHOLD)
    &&& forall|i: int, j: int|
        0 <= i < j < v.active.len() ==> v.slots[v.active[i] as int].addr != v.slots[v.active[
            j
        ] as int].addr
    &&& forall|j: int|
        0 <= j < v.free.len() ==> (#[trigger] v.slots[v.free[j] as int]) == spec_empty_slot()
}

/// Where `first_match` finds nothing from `from` on, no later active
/// position matches at all.
proof fn lemma_first_match_miss(v: RegistryView, addr: usize, from: int)
    requires
        0 <= from,
        first_match(v, addr, from) < 0,
    ensures
        forall|i: int|
            from <= i < v.active.len() ==> v.slots[(#[trigger] v.active[i]) as int].addr != addr,
    decreases v.active.len() - from,
{
    if from < 0 || from >= v.active.len() {
    } else {
        lemma_first_match_miss(v, addr, from + 1);
    }
}

/// An active position recording `addr` makes `addr` tracked.
proof fn lemma_match_is_tracked(v: RegistryView, addr: usize, i: int)
    requires
        0 <= i < v.active.len(),
        v.slots[v.active[i] as int].addr == addr,
    ensures
        spec_tracked(v, addr),
{
    if first_match(v, addr, 0) < 0 {
        lemma_first_match_miss(v, addr, 0);
    }
}

/// Registering a fresh address preserves the live-prefix invariant, and
/// the address is tracked afterwards whenever a slot was found.
pub proof fn lemma_on_alloc_tracked_inv(v: RegistryView, addr: usize, size: usize)
    requires
        v.wf(),
        tracked_inv(v),
        !spec_tracked(v, addr),
    ensures
        tracked_inv(spec_on_alloc(v, addr, size)),
        addr != 0 && size >= TRACK_THRESHOLD && spec_acquire(v) is Some ==> spec_tracked(
            spec_on_alloc(v, addr, size),
            addr,
        ),
{
    if addr == 0 || size < TRACK_THRESHOLD || spec_acquire(v) is None {
    } else {
        let v2 = spec_on_alloc(v, addr, size);
        let idx = if v.free.len() > 0 {
            v.free.last()
        } else {
            v.next_fresh
        };
        lemma_first_match_miss(v, addr, 0);
        if v.free.len() > 0 {
            assert(idx == v.free[v.free.len() - 1]);
            assert forall|i: int| 0 <= i < v.active.len() implies (#[trigger] v.active[i])
                != idx by {
                assert(v.active[i] != v.free[v.free.len() - 1]);
            }
            assert forall|j: int| 0 <= j < v.free.len() - 1 implies (#[trigger] v.free[j])
                != idx by {
                assert(v.free[j] != v.free[v.free.len() - 1]);
            }
        }
        assert(v2.active[v.active.len() as int] == idx);
        assert(v2.slots[idx as int].addr == addr);
        assert(tracked_inv(v2));
        lemma_match_is_tracked(v2, addr, v.active.len() as int);
    }
}

/// Releasing a tracked address preserves the live-prefix invariant and
/// removes the address from tracking altogether.
pub proof fn lemma_on_dealloc_tracked_inv(v: RegistryView, addr: usize)
    requires
        v.wf(),
        tracked_inv(v),
    ensures
        tracked_inv(spec_on_dealloc(v, addr)),
        !spec_tracked(spec_on_dealloc(v, addr), addr),
{
    let i = first_match(v, addr, 0);
    if i < 0 {
    } else {
        lemma_first_match_props(v, addr, 0);
        let slot = v.active[i];
        let v2 = spec_on_dealloc(v, addr);
        assert(v.free.len() < v.slots.len());
        assert forall|p: int| 0 <= p < v2.active.len() implies (#[trigger] v2.active[p])
            != slot by {
            assert(v2.active[p] == v.active[p] || v2.active[p] == v.active[v.active.len() - 1]);
        }
        assert forall|p: int| 0 <= p < v2.active.len() implies v2.slots[(#[trigger] v2.active[p]) as int].addr
            != addr by {
            assert(v2.active[p] == v.active[p] || v2.active[p] == v.active[v.active.len() - 1]);
            if v2.active[p] == v.active[p] && p != i {
                assert(v.slots[v.active[p] as int].addr != v.slots[v.active[i] as int].addr);
            }
        }
        assert(tracked_inv(v2));
        if first_match(v2, addr, 0) >= 0 {
            lemma_first_match_props(v2, addr, 0);
        }
    }
}

/// One allocate or deallocate call, as the registry sees it.
pub enum AllocEvent {
    Alloc { addr: usize, size: usize },
    Dealloc { addr: usize },
}

/// The registry state after one event.
pub open spec fn spec_step(v: RegistryView, e: AllocEvent) -> RegistryView {
    match e {
        AllocEvent::Alloc { addr, size } => spec_on_alloc(v, addr, size),
        AllocEvent::Dealloc { addr } => spec_on_dealloc(v, addr),
    }
}

/// The registry state after a whole run of events, applied in order.
pub open spec fn apply_events(v: RegistryView, evs: Seq<AllocEvent>) -> RegistryView
    decreases evs.len(),
{
    if evs.len() == 0 {
        v
    } else {
        apply_events(spec_step(v, evs[0]), evs.drop_first())
    }
}

/// Every event in the run lands: each allocation is non-null, at least
/// the tracking threshold, and finds room; each deallocation targets an
/// address tracked at that point.
pub open spec fn events_ok(v: RegistryView, evs: Seq<AllocEvent>) -> bool
    decreases evs.len(),
{
    evs.len() == 0 || ({
        let ok = match evs[0] {
            AllocEvent::Alloc { addr, size } => addr != 0 && size >= TRACK_THRESHOLD
                && spec_acquire(v) is Some,
            AllocEvent::Dealloc { addr } => spec_tracked(v, addr),
        };
        ok && events_ok(spec_step(v, evs[0]), evs.drop_first())
    })
}

/// How many of the events are allocations.
pub open spec fn count_allocs(evs: Seq<AllocEvent>) -> int
    decreases evs.len(),
{
    if evs.len() == 0 {
        0
    } else {
        (if evs[0] is Alloc {
            1int
        } else {
            0int
        }) + count_allocs(evs.drop_first())
    }
}

/// How many of the events are deallocations.
pub open spec fn count_deallocs(evs: Seq<AllocEvent>) -> int
    decreases evs.len(),
{
    if evs.len() == 0 {
        0
    } else {
        (if evs[0] is Dealloc {
            1int
        } else {
            0int
        }) + count_deallocs(evs.drop_first())
    }
}

/// `first_match` returns -1 or a position, at or after `from`, whose
/// slot records `addr`.
proof fn lemma_first_match_props(v: RegistryView, addr: usize, from: int)
    ensures
        ({
            let i = first_match(v, addr, from);
            i == -1 || (from <= i < v.active.len() && v.slots[v.active[i] as int].addr == addr)
        }),
    decreases v.active.len() - from,
{
    if from < 0 || from >= v.active.len() {
    } else if v.slots[v.active[from] as int].addr == addr {
    } else {
        lemma_first_match_props(v, addr, from + 1);
    }
}

/// A tracked allocation that finds room grows the active set by exactly
/// one and keeps the registry well-formed.
pub proof fn lemma_on_alloc_wf(v: RegistryView, addr: usize, size: usize)
    requires
        v.wf(),
        addr != 0,
        size >= TRACK_THRESHOLD,
        spec_acquire(v) is Some,
    ensures
        spec_on_alloc(v, addr, size).wf(),
        spec_on_alloc(v, addr, size).active.len() == v.active.len() + 1,
        spec_on_alloc(v, addr, size).slots.len() == v.slots.len(),
{
    let v2 = spec_on_alloc(v, addr, size);
    if v.free.len() > 0 {
        let idx = v.free.last();
        assert(idx == v.free[v.free.len() - 1]);
        assert(idx < v.next_fresh);
        assert forall|i: int| 0 <= i < v.active.len() implies (#[trigger] v.active[i]) != idx by {
            assert(v.active[i] != v.free[v.free.len() - 1]);
        }
        assert forall|j: int| 0 <= j < v.free.len() - 1 implies (#[trigger] v.free[j]) != idx by {
            assert(v.free[j] != v.free[v.free.len() - 1]);
        }
        assert(v2.wf());
    } else {
        assert(v2.active == v.active.push(v.next_fresh));
        assert(v2.wf());
    }
}

/// A deallocation of a tracked address shrinks the active set by exactly
/// one, grows the free list by one, and keeps the registry well-formed.
pub proof fn lemma_on_dealloc_wf(v: RegistryView, addr: usize)
    requires
        v.wf(),
        spec_tracked(v, addr),
    ensures
        spec_on_dealloc(v, addr).wf(),
        spec_on_dealloc(v, addr).active.len() == v.active.len() - 1,
        spec_on_dealloc(v, addr).free.len() == v.free.len() + 1,
        spec_on_dealloc(v, addr).slots.len() == v.slots.len(),
{
    let i = first_match(v, addr, 0);
    lemma_first_match_props(v, addr, 0);
    assert(0 <= i < v.active.len());
    assert(v.free.len() < v.slots.len());
    lemma_swap_removed_wf(v, i, v.active[i]);
}

/// For any single-threaded run of tracked allocations and matching
/// deallocations, the active set's length moves by exactly their
/// difference — it counts the not-yet-deallocated calls — and never
/// exceeds the configured capacity.
pub proof fn lemma_active_len_tracks_live(v: RegistryView, evs: Seq<AllocEvent>)
    requires
        v.wf(),
        events_ok(v, evs),
    ensures
        apply_events(v, evs).wf(),
        apply_events(v, evs).active.len() == v.active.len() + count_allocs(evs) - count_deallocs(
            evs,
        ),
        apply_events(v, evs).active.len() <= apply_events(v, evs).capacity(),
        apply_events(v, evs).slots.len() == v.slots.len(),
    decreases evs.len(),
{
    if evs.len() == 0 {
    } else {
        let v1 = spec_step(v, evs[0]);
        match evs[0] {
            AllocEvent::Alloc { addr, size } => {
                lemma_on_alloc_wf(v, addr, size);
            },
            AllocEvent::Dealloc { addr } => {
                lemma_on_dealloc_wf(v, addr);
            },
        }
        lemma_active_len_tracks_live(v1, evs.drop_first());
    }
}

/// After removing active position `i` (holding `slot`) by swap-with-last
/// and pushing `slot` onto the free list, the registry is still
/// well-formed.
proof fn lemma_swap_removed_wf(v: RegistryView, i: int, slot: usize)
    requires
        v.wf(),
        0 <= i < v.active.len(),
        slot == v.active[i],
        v.free.len() < v.slots.len(),
    ensures
        (RegistryView {
            slots: v.slots.update(slot as int, spec_empty_slot()),
            active: swap_removed(v.active, i),
            free: v.free.push(slot),
            next_fresh: v.next_fresh,
        }).wf(),
{
    let a2 = swap_removed(v.active, i);
    let f2 = v.free.push(slot);
    assert forall|p: int| 0 <= p < a2.len() implies (#[trigger] a2[p]) < v.next_fresh by {
        assert(a2[p] == v.active[p] || a2[p] == v.active[v.active.len() - 1]);
    }
    assert forall|p: int, q: int| 0 <= p < q < a2.len() implies a2[p] != a2[q] by {
        assert(a2[p] == v.active[p] || a2[p] == v.active[v.active.len() - 1]);
        assert(a2[q] == v.active[q] || a2[q] == v.active[v.active.len() - 1]);
    }
    assert forall|p: int, q: int| 0 <= p < q < f2.len() implies f2[p] != f2[q] by {
        if q < v.free.len() {
        } else {
            assert(f2[q] == slot);
            assert(v.active[i] != v.free[p]);
        }
    }
    assert forall|p: int, q: int| 0 <= p < a2.len() && 0 <= q < f2.len() implies a2[p]
        != f2[q] by {
        assert(a2[p] == v.active[p] || a2[p] == v.active[v.active.len() - 1]);
        if q < v.free.len() {
        } else {
            assert(f2[q] == slot);
            if a2[p] == v.active[p] {
                assert(p != i);
            }
        }
    }
}

} // verus!

//! The CPU backend's bounded storage ring: a fixed number of staging buffers that hold
//! storage objects (extents read in one piece, each carrying several weights) while the
//! kernels that use them run. This module keeps the ring's books: which object each
//! resident slot holds, how many buffers are idle, which reads are in flight, and the read
//! counters; it decides what to read, what to evict and where a finished read goes. The
//! reads themselves, and the buffers, are the caller's.
use vstd::prelude::*;

use std::collections::HashMap;

use crate::error::FellmError;

verus! {

/// One weight inside a storage object: where its bytes sit in the object's read.
#[derive(Debug, Clone, Copy, PartialEq, Eq, Structural)]
pub struct ObjectMember {
    /// Logical weight id.
    pub weight: u64,
    /// Byte offset in the object.
    pub offset: u64,
    /// Byte length.
    pub len: u64,
}

/// A storage object: one extent, read in one piece, holding several weights.
#[derive(Debug, Clone)]
pub struct StorageObject {
    /// Object id.
    pub id: u64,
    /// Extent length in bytes.
    pub len: u64,
    /// Bytes of the extent that belong to its weights.
    pub useful_bytes: u64,
    /// The weights it holds.
    pub members: Vec<ObjectMember>,
}

/// A read that occupies a resident slot: its object and how many bytes of it are valid.
#[derive(Debug, Clone, Copy, PartialEq, Eq, Structural)]
pub struct ResidentRead {
    /// Object id.
    pub object: u64,
    /// Valid bytes.
    pub valid_len: u64,
}

/// How weights are read from storage.
#[derive(Debug, Clone, Copy, PartialEq, Eq, Structural)]
pub enum StorageProviderKind {
    /// Memory-mapped file.
    Mmap,
    /// Page-cache reads.
    PageCache,
    /// Buffered reads.
    Buffered,
    /// Direct (unbuffered) I/O.
    Direct,
    /// io_uring.
    IoUring,
    /// GPUDirect Storage.
    Gds,
}

/// Why the CPU backend cannot read weights with this provider (or this many weights), if
/// it cannot: no weights at all, io_uring (not operational), GDS (it feeds GPUs only), or
/// direct I/O where the platform has none.
pub open spec fn provider_refusal(kind: StorageProviderKind, n_weights: nat, direct_io_available: bool) -> Option<
    Seq<char>,
> {
    if n_weights == 0 {
        Some("CPU storage weight catalog is empty"@)
    } else {
        match kind {
            StorageProviderKind::IoUring => Some("io_uring provider is not operational"@),
            StorageProviderKind::Gds => Some("GDS cannot feed CPU execution"@),
            StorageProviderKind::Direct => if direct_io_available {
                None
            } else {
                Some("native direct I/O unavailable"@)
            },
            _ => None,
        }
    }
}

/// Check that the CPU backend can read `n_weights` weights with this provider.
pub fn check_cpu_provider(kind: StorageProviderKind, n_weights: usize, direct_io_available: bool) -> (r: Result<
    (),
    FellmError,
>)
    ensures
        match provider_refusal(kind, n_weights as nat, direct_io_available) {
            Some(m) => r matches Err(FellmError::Other(e)) && e@ == m,
            None => r is Ok,
        },
{
    if n_weights == 0 {
        return Err(FellmError::other("CPU storage weight catalog is empty"));
    }
    match kind {
        StorageProviderKind::IoUring => Err(FellmError::other("io_uring provider is not operational")),
        StorageProviderKind::Gds => Err(FellmError::other("GDS cannot feed CPU execution")),
        StorageProviderKind::Direct => if direct_io_available {
            Ok(())
        } else {
            Err(FellmError::other("native direct I/O unavailable"))
        },
        _ => Ok(()),
    }
}

/// The object of the catalog that a weight belongs to: the last object listing it.
pub open spec fn object_of(objects: Seq<StorageObject>, weight: u64) -> Option<u64>
    decreases objects.len(),
{
    if objects.len() == 0 {
        None
    } else if exists|k: int| 0 <= k < objects.last().members@.len() && (#[trigger] objects.last().members@[k]).weight == weight {
        Some(objects.last().id)
    } else {
        object_of(objects.drop_last(), weight)
    }
}

/// The catalog entry of an object id: the last object with that id.
pub open spec fn entry_of(objects: Seq<StorageObject>, id: u64) -> Option<StorageObject>
    decreases objects.len(),
{
    if objects.len() == 0 {
        None
    } else if objects.last().id == id {
        Some(objects.last())
    } else {
        entry_of(objects.drop_last(), id)
    }
}

/// The largest extent among the catalog's entries (the last object of each id) that the
/// first `n` objects name.
pub open spec fn largest_entry(objects: Seq<StorageObject>, n: int) -> nat
    decreases n,
{
    if n <= 0 {
        0
    } else {
        let m = largest_entry(objects, n - 1);
        let l = match entry_of(objects, objects[n - 1].id) {
            Some(e) => e.len as nat,
            None => 0,
        };
        if l > m {
            l
        } else {
            m
        }
    }
}

/// The largest extent among the catalog's entries, or 1 for an empty catalog.
pub open spec fn largest_extent(objects: Seq<StorageObject>) -> nat {
    if objects.len() == 0 {
        1
    } else {
        largest_entry(objects, objects.len() as int)
    }
}

/// Bytes of one staging slot: the configured buffer size, raised to the largest extent,
/// rounded up to a multiple of 4096.
pub open spec fn slot_bytes_for(buffer_bytes: nat, objects: Seq<StorageObject>) -> nat {
    let b = if buffer_bytes < largest_extent(objects) { largest_extent(objects) } else { buffer_bytes };
    if b % 4096 == 0 {
        b
    } else {
        (b + 4096 - b % 4096) as nat
    }
}

/// The weight-to-object map a catalog's first `i` objects give, with the first `j` members
/// of object `i` already entered.
pub open spec fn object_of_partial(objects: Seq<StorageObject>, i: int, j: int, weight: u64) -> Option<u64> {
    if exists|k: int| 0 <= k < j && (#[trigger] objects[i].members@[k]).weight == weight {
        Some(objects[i].id)
    } else {
        object_of(objects.take(i), weight)
    }
}

/// The weight-to-object map, keyed by logical weight id.
fn weight_object_map(objects: &[StorageObject]) -> (m: HashMap<u64, u64>)
    ensures
        forall|w: u64| #[trigger] m@.contains_key(w) <==> object_of(objects@, w) is Some,
        forall|w: u64| m@.contains_key(w) ==> Some(#[trigger] m@[w]) == object_of(objects@, w),
{
    let mut m: HashMap<u64, u64> = HashMap::new();
    let mut i: usize = 0;
    assert(objects@.take(0) =~= Seq::<StorageObject>::empty());
    while i < objects.len()
        invariant
            i <= objects@.len(),
            forall|w: u64| #[trigger] m@.contains_key(w) <==> object_of(objects@.take(i as int), w) is Some,
            forall|w: u64| m@.contains_key(w) ==> Some(#[trigger] m@[w]) == object_of(objects@.take(i as int), w),
        decreases objects@.len() - i,
    {
        let o = &objects[i];
        let mut j: usize = 0;
        while j < o.members.len()
            invariant
                i < objects@.len(),
                *o == objects@[i as int],
                j <= o.members@.len(),
                forall|w: u64| #[trigger] m@.contains_key(w) <==> object_of_partial(objects@, i as int, j as int, w) is Some,
                forall|w: u64| m@.contains_key(w) ==> Some(#[trigger] m@[w]) == object_of_partial(
                    objects@,
                    i as int,
                    j as int,
                    w,
                ),
            decreases o.members@.len() - j,
        {
            let w = o.members[j].weight;
            m.insert(w, o.id);
            proof {
                assert forall|x: u64| #[trigger] m@.contains_key(x) <==> object_of_partial(
                    objects@,
                    i as int,
                    j + 1,
                    x,
                ) is Some by {
                    if x == w {
                        assert(objects@[i as int].members@[j as int].weight == x);
                    } else if exists|k: int| 0 <= k < j + 1 && (#[trigger] objects@[i as int].members@[k]).weight == x {
                        let k = choose|k: int| 0 <= k < j + 1 && (#[trigger] objects@[i as int].members@[k]).weight == x;
                        assert(k < j);
                    }
                }
                assert forall|x: u64| m@.contains_key(x) implies Some(#[trigger] m@[x]) == object_of_partial(
                    objects@,
                    i as int,
                    j + 1,
                    x,
                ) by {
                    if x == w {
                        assert(objects@[i as int].members@[j as int].weight == x);
                    } else if exists|k: int| 0 <= k < j + 1 && (#[trigger] objects@[i as int].members@[k]).weight == x {
                        let k = choose|k: int| 0 <= k < j + 1 && (#[trigger] objects@[i as int].members@[k]).weight == x;
                        assert(k < j);
                    }
                }
            }
            j = j + 1;
        }
        proof {
            let t = objects@.take(i + 1);
            assert(t.drop_last() =~= objects@.take(i as int));
            assert(t.last() == objects@[i as int]);
            assert forall|w: u64| object_of_partial(objects@, i as int, j as int, w) == #[trigger] object_of(t, w) by {
            }
        }
        i = i + 1;
    }
    assert(objects@.take(objects@.len() as int) =~= objects@);
    m
}

/// The catalog index of each object id's entry (its last object).
pub(crate) fn entry_index_map(objects: &[StorageObject]) -> (m: HashMap<u64, usize>)
    ensures
        forall|id: u64| #[trigger] m@.contains_key(id) <==> entry_of(objects@, id) is Some,
        forall|id: u64| m@.contains_key(id) ==> (#[trigger] m@[id] as int) < objects@.len() && Some(
            objects@[m@[id] as int],
        ) == entry_of(objects@, id),
{
    let mut m: HashMap<u64, usize> = HashMap::new();
    let mut i: usize = 0;
    assert(objects@.take(0) =~= Seq::<StorageObject>::empty());
    while i < objects.len()
        invariant
            i <= objects@.len(),
            forall|id: u64| #[trigger] m@.contains_key(id) <==> entry_of(objects@.take(i as int), id) is Some,
            forall|id: u64| m@.contains_key(id) ==> (#[trigger] m@[id] as int) < i && Some(objects@[m@[id] as int])
                == entry_of(objects@.take(i as int), id),
        decreases objects@.len() - i,
    {
        m.insert(objects[i].id, i);
        proof {
            let t = objects@.take(i + 1);
            assert(t.drop_last() =~= objects@.take(i as int));
            assert(t.last() == objects@[i as int]);
            assert forall|id: u64| #[trigger] m@.contains_key(id) <==> entry_of(t, id) is Some by {
            }
            assert forall|id: u64| m@.contains_key(id) implies (#[trigger] m@[id] as int) < i + 1 && Some(
                objects@[m@[id] as int],
            ) == entry_of(t, id) by {
            }
        }
        i = i + 1;
    }
    assert(objects@.take(objects@.len() as int) =~= objects@);
    m
}

/// Whether a slot list holds object `o`.
pub open spec fn holds(slots: Seq<Option<ResidentRead>>, o: u64) -> bool {
    exists|i: int| 0 <= i < slots.len() && #[trigger] slots[i] is Some && slots[i].unwrap().object == o
}

/// The number of occupied slots.
pub open spec fn occupied(slots: Seq<Option<ResidentRead>>) -> nat
    decreases slots.len(),
{
    if slots.len() == 0 {
        0
    } else {
        occupied(slots.drop_last()) + if slots.last() is Some { 1nat } else { 0nat }
    }
}

/// No object occupies two slots.
pub open spec fn distinct_residents(slots: Seq<Option<ResidentRead>>) -> bool {
    forall|i: int, j: int| #![trigger slots[i], slots[j]]
        0 <= i < slots.len() && 0 <= j < slots.len() && i != j && slots[i] is Some && slots[j] is Some
            ==> slots[i].unwrap().object != slots[j].unwrap().object
}

proof fn lemma_occupied_update(s: Seq<Option<ResidentRead>>, i: int, v: Option<ResidentRead>)
    requires
        0 <= i < s.len(),
    ensures
        occupied(s.update(i, v)) + (if s[i] is Some { 1int } else { 0int }) == occupied(s) + (if v is Some {
            1int
        } else {
            0int
        }),
    decreases s.len(),
{
    let u = s.update(i, v);
    if i == s.len() - 1 {
        assert(u.drop_last() =~= s.drop_last());
    } else {
        assert(u.drop_last() =~= s.drop_last().update(i, v));
        lemma_occupied_update(s.drop_last(), i, v);
    }
}

proof fn lemma_occupied_bound(s: Seq<Option<ResidentRead>>)
    ensures
        occupied(s) <= s.len(),
    decreases s.len(),
{
    if s.len() > 0 {
        lemma_occupied_bound(s.drop_last());
    }
}

proof fn lemma_occupied_empty(n: nat)
    ensures
        occupied(Seq::new(n, |k: int| None::<ResidentRead>)) == 0,
    decreases n,
{
    if n > 0 {
        let s = Seq::new(n, |k: int| None::<ResidentRead>);
        assert(s.drop_last() =~= Seq::new((n - 1) as nat, |k: int| None::<ResidentRead>));
        lemma_occupied_empty((n - 1) as nat);
    }
}

/// The CPU backend's bounded storage ring.
pub struct CpuWeightRing {
    objects: Vec<StorageObject>,
    weight_objects: HashMap<u64, u64>,
    entries: HashMap<u64, usize>,
    slot_bytes: usize,
    resident: Vec<Option<ResidentRead>>,
    idle: usize,
    pending: Vec<u64>,
    physical_reads: u64,
    physical_bytes: u64,
    read_nanos: u64,
    wait_nanos: u64,
    overlap: bool,
    buffers: Ghost<nat>,
    in_hand: Ghost<nat>,
    lost: Ghost<nat>,
}

impl CpuWeightRing {
    /// The storage objects of the catalog.
    pub closed spec fn catalog(&self) -> Seq<StorageObject> {
        self.objects@
    }

    /// The resident slots.
    pub closed spec fn slots(&self) -> Seq<Option<ResidentRead>> {
        self.resident@
    }

    /// Idle staging buffers.
    pub closed spec fn idle_buffers(&self) -> nat {
        self.idle as nat
    }

    /// Objects whose read is in flight.
    pub closed spec fn in_flight(&self) -> Seq<u64> {
        self.pending@
    }

    /// Bytes of one staging slot.
    pub closed spec fn spec_slot_bytes(&self) -> nat {
        self.slot_bytes as nat
    }

    /// Whether reads may run ahead of the kernels that need them.
    pub closed spec fn spec_overlap(&self) -> bool {
        self.overlap
    }

    /// Completed reads, their bytes, and their time; and the time kernels waited for them.
    pub closed spec fn counters(&self) -> (u64, u64, u64, u64) {
        (self.physical_reads, self.physical_bytes, self.read_nanos, self.wait_nanos)
    }

    /// All staging buffers, and those taken for a read not yet started or lost with a
    /// failed read.
    pub closed spec fn buffer_books(&self) -> (nat, nat, nat) {
        (self.buffers@, self.in_hand@, self.lost@)
    }

    /// The maps agree with the catalog; no object is in flight twice or both in flight and
    /// resident; no object is resident twice; and every staging buffer is accounted for:
    /// resident, idle, in flight, taken for a read, or lost.
    pub closed spec fn wf(&self) -> bool {
        &&& forall|w: u64| #[trigger] self.weight_objects@.contains_key(w) <==> object_of(self.objects@, w) is Some
        &&& forall|w: u64| self.weight_objects@.contains_key(w) ==> Some(#[trigger] self.weight_objects@[w])
            == object_of(self.objects@, w)
        &&& forall|id: u64| #[trigger] self.entries@.contains_key(id) <==> entry_of(self.objects@, id) is Some
        &&& forall|id: u64| self.entries@.contains_key(id) ==> (#[trigger] self.entries@[id] as int) < self.objects@.len()
            && Some(self.objects@[self.entries@[id] as int]) == entry_of(self.objects@, id)
        &&& self.pending@.no_duplicates()
        &&& forall|k: int| 0 <= k < self.pending@.len() ==> !holds(self.resident@, #[trigger] self.pending@[k])
            && entry_of(self.objects@, self.pending@[k]) is Some
        &&& distinct_residents(self.resident@)
        &&& occupied(self.resident@) + self.idle + self.pending@.len() + self.in_hand@ + self.lost@ == self.buffers@
        &&& self.buffers@ <= usize::MAX
    }

    /// A ring of `max(buffer_count, 2)` empty slots and as many idle staging buffers of
    /// [`slot_bytes_for`] bytes, over this catalog.
    pub fn configure(objects: Vec<StorageObject>, buffer_count: usize, buffer_bytes: usize, overlap: bool) -> (r:
        CpuWeightRing)
        requires
            largest_extent(objects@) <= usize::MAX,
            slot_bytes_for(buffer_bytes as nat, objects@) <= usize::MAX,
        ensures
            r.wf(),
            r.catalog() == objects@,
            r.slots() == Seq::new(
                (if buffer_count < 2 { 2 } else { buffer_count }) as nat,
                |k: int| None::<ResidentRead>,
            ),
            r.idle_buffers() == (if buffer_count < 2 { 2 } else { buffer_count }),
            r.in_flight() == Seq::<u64>::empty(),
            r.spec_slot_bytes() == slot_bytes_for(buffer_bytes as nat, objects@),
            r.spec_overlap() == overlap,
            r.counters() == (0u64, 0u64, 0u64, 0u64),
    {
        let weight_objects = weight_object_map(objects.as_slice());
        let entries = entry_index_map(objects.as_slice());
        let largest = largest_extent_exec(objects.as_slice(), &entries);
        let b = if buffer_bytes < largest { largest } else { buffer_bytes };
        let slot_bytes = if b % 4096 == 0 { b } else { b + (4096 - b % 4096) };
        let n = if buffer_count < 2 { 2 } else { buffer_count };
        let mut resident: Vec<Option<ResidentRead>> = Vec::new();
        let mut k: usize = 0;
        while k < n
            invariant
                k <= n,
                resident@ == Seq::new(k as nat, |x: int| None::<ResidentRead>),
            decreases n - k,
        {
            resident.push(None);
            proof {
                assert(resident@ =~= Seq::new((k + 1) as nat, |x: int| None::<ResidentRead>));
            }
            k = k + 1;
        }
        proof {
            lemma_occupied_empty(n as nat);
        }
        CpuWeightRing {
            objects,
            weight_objects,
            entries,
            slot_bytes,
            resident,
            idle: n,
            pending: Vec::new(),
            physical_reads: 0,
            physical_bytes: 0,
            read_nanos: 0,
            wait_nanos: 0,
            overlap,
            buffers: Ghost(n as nat),
            in_hand: Ghost(0),
            lost: Ghost(0),
        }
    }
}

fn largest_extent_exec(objects: &[StorageObject], entries: &HashMap<u64, usize>) -> (n: usize)
    requires
        forall|id: u64| #[trigger] entries@.contains_key(id) <==> entry_of(objects@, id) is Some,
        forall|id: u64| entries@.contains_key(id) ==> (#[trigger] entries@[id] as int) < objects@.len() && Some(
            objects@[entries@[id] as int],
        ) == entry_of(objects@, id),
        largest_extent(objects@) <= usize::MAX,
    ensures
        n == largest_extent(objects@),
{
    if objects.len() == 0 {
        return 1;
    }
    let mut m: u64 = 0;
    let mut i: usize = 0;
    while i < objects.len()
        invariant
            i <= objects@.len(),
            objects@.len() > 0,
            m == largest_entry(objects@, i as int),
            forall|id: u64| #[trigger] entries@.contains_key(id) <==> entry_of(objects@, id) is Some,
            forall|id: u64| entries@.contains_key(id) ==> (#[trigger] entries@[id] as int) < objects@.len() && Some(
                objects@[entries@[id] as int],
            ) == entry_of(objects@, id),
        decreases objects@.len() - i,
    {
        proof {
            lemma_entry_of_present(objects@, i as int);
        }
        let e = match entries.get(&objects[i].id) {
            Some(x) => *x,
            None => i,
        };
        let l = objects[e].len;
        if l > m {
            m = l;
        }
        i = i + 1;
    }
    proof {
        lemma_largest_entry_bound(objects@, objects@.len() as int);
    }
    m as usize
}

pub(crate) proof fn lemma_entry_of_present(objects: Seq<StorageObject>, i: int)
    requires
        0 <= i < objects.len(),
    ensures
        entry_of(objects, objects[i].id) is Some,
    decreases objects.len(),
{
    if objects.last().id != objects[i].id {
        assert(i < objects.len() - 1);
        assert(objects.drop_last()[i] == objects[i]);
        lemma_entry_of_present(objects.drop_last(), i);
    }
}

proof fn lemma_largest_entry_bound(objects: Seq<StorageObject>, n: int)
    ensures
        largest_entry(objects, n) <= u64::MAX,
    decreases n,
{
    if n > 0 {
        lemma_largest_entry_bound(objects, n - 1);
    }
}

/// The objects a group of weights needs, in first-seen order, each once (weights that
/// are in no object need none).
pub open spec fn group_of(catalog: Seq<StorageObject>, weights: Seq<u64>) -> Seq<u64>
    decreases weights.len(),
{
    if weights.len() == 0 {
        Seq::empty()
    } else {
        let g = group_of(catalog, weights.drop_last());
        match object_of(catalog, weights.last()) {
            Some(o) => if g.contains(o) {
                g
            } else {
                g.push(o)
            },
            None => g,
        }
    }
}

proof fn lemma_group_no_duplicates(catalog: Seq<StorageObject>, weights: Seq<u64>)
    ensures
        group_of(catalog, weights).no_duplicates(),
    decreases weights.len(),
{
    if weights.len() > 0 {
        lemma_group_no_duplicates(catalog, weights.drop_last());
        let g = group_of(catalog, weights.drop_last());
        if let Some(o) = object_of(catalog, weights.last()) {
            if !g.contains(o) {
                assert forall|i: int, j: int| 0 <= i < j < g.push(o).len() implies g.push(o)[i] != g.push(o)[j] by {
                    if j == g.len() {
                        assert(g.contains(g[i]));
                    }
                }
            }
        }
    }
}

/// What the caller does next for a prefetch in progress.
#[derive(Debug)]
pub enum RingStep {
    /// Join the read in flight for this object, which the group does not need, to get its
    /// buffer back; then hand back what came of it.
    Reclaim(u64),
    /// Take an idle buffer and start reading the first `len` bytes of `object` into it;
    /// then hand back whether the read started.
    Read {
        /// The object.
        object: u64,
        /// Its extent length.
        len: u64,
    },
    /// Wait for the read of this object; then hand back what came of it.
    Await(u64),
    /// Put the buffer of the read just awaited into this resident slot.
    Place(usize),
    /// The prefetch is complete.
    Done,
    /// The prefetch failed.
    Failed(FellmError),
}

/// What came of the caller's last step.
#[derive(Debug)]
pub enum StepOutcome {
    /// A read started, or a buffer was placed (or, for the first call, nothing was asked).
    Carried,
    /// The joined read finished; it took `read_nanos`, and waiting for it `wait_nanos`.
    Finished {
        /// Time the read took.
        read_nanos: u64,
        /// Time spent waiting for it.
        wait_nanos: u64,
    },
    /// The step failed.
    Failed(FellmError),
}

/// Where a prefetch stands.
#[derive(Debug, Clone, Copy, PartialEq, Eq, Structural)]
pub enum Phase {
    /// Looking for the next thing to do.
    Scan,
    /// A stale read is being reclaimed.
    Reclaiming(u64),
    /// A read is being started.
    Reading(u64),
    /// A read is being awaited.
    Awaiting(u64),
    /// A finished read is being placed.
    Placing,
    /// Complete or failed.
    Over,
}

/// A prefetch in progress: the objects of a group, how many of them are dealt with, and
/// whether the group is needed now.
pub struct PrefetchRun {
    objects: Vec<u64>,
    next: usize,
    required: bool,
    phase: Phase,
}

impl PrefetchRun {
    /// The group's objects.
    pub closed spec fn group(&self) -> Seq<u64> {
        self.objects@
    }

    /// How many of them are dealt with.
    pub closed spec fn done_count(&self) -> nat {
        self.next as nat
    }

    /// Whether the group is needed now.
    pub closed spec fn spec_required(&self) -> bool {
        self.required
    }

    /// Where the prefetch stands.
    pub closed spec fn spec_phase(&self) -> Phase {
        self.phase
    }

    /// Whether the prefetch is complete or failed.
    pub fn is_over(&self) -> (b: bool)
        ensures
            b == (self.spec_phase() == Phase::Over),
    {
        self.phase == Phase::Over
    }
}

/// The prefetch and the ring agree: the dealt-with objects of a needed group are resident,
/// and each phase holds what it was entered with.
pub open spec fn run_wf(ring: &CpuWeightRing, run: &PrefetchRun) -> bool {
    let g = run.group();
    let n = run.done_count();
    let (buffers, in_hand, lost) = ring.buffer_books();
    &&& g.no_duplicates()
    &&& n <= g.len()
    &&& forall|k: int| 0 <= k < g.len() ==> entry_of(ring.catalog(), #[trigger] g[k]) is Some
    &&& run.spec_required() ==> forall|k: int| 0 <= k < n ==> holds(ring.slots(), #[trigger] g[k])
    &&& !run.spec_required() ==> forall|k: int| 0 <= k < n ==> holds(ring.slots(), #[trigger] g[k])
        || ring.in_flight().contains(g[k]) || ring.idle_buffers() == 0
    &&& match run.spec_phase() {
        Phase::Scan => in_hand == 0,
        Phase::Placing => in_hand == 0 && n < g.len() && holds(ring.slots(), g[n as int]),
        Phase::Reclaiming(p) => {
            &&& in_hand == 0 && n < g.len() && run.spec_required()
            &&& ring.in_flight().contains(p) && !g.contains(p)
        },
        Phase::Reading(o) => {
            &&& in_hand == 1 && n < g.len() && o == g[n as int]
            &&& !holds(ring.slots(), o) && !ring.in_flight().contains(o)
            &&& entry_of(ring.catalog(), o) is Some
        },
        Phase::Awaiting(o) => {
            &&& in_hand == 0 && n < g.len() && o == g[n as int] && run.spec_required()
            &&& !holds(ring.slots(), o) && ring.in_flight().contains(o)
        },
        Phase::Over => in_hand == 0,
    }
}

/// The outcome fits what the last step asked for.
pub open spec fn outcome_fits(phase: Phase, outcome: StepOutcome) -> bool {
    match phase {
        Phase::Scan | Phase::Placing => outcome is Carried,
        Phase::Reading(_) => outcome is Carried || outcome is Failed,
        Phase::Reclaiming(_) | Phase::Awaiting(_) => outcome is Finished || outcome is Failed,
        Phase::Over => false,
    }
}

fn holds_exec(slots: &Vec<Option<ResidentRead>>, o: u64) -> (b: bool)
    ensures
        b == holds(slots@, o),
{
    let mut i: usize = 0;
    while i < slots.len()
        invariant
            i <= slots@.len(),
            forall|k: int| 0 <= k < i ==> !(#[trigger] slots@[k] is Some && slots@[k].unwrap().object == o),
        decreases slots@.len() - i,
    {
        match slots[i] {
            Some(r) => if r.object == o {
                return true;
            },
            None => {},
        }
        i = i + 1;
    }
    false
}

fn first_empty(slots: &Vec<Option<ResidentRead>>) -> (r: Option<usize>)
    ensures
        match r {
            Some(i) => i < slots@.len() && slots@[i as int] is None && forall|k: int| 0 <= k < i ==> #[trigger] slots@[k]
                is Some,
            None => forall|k: int| 0 <= k < slots@.len() ==> #[trigger] slots@[k] is Some,
        },
{
    let mut i: usize = 0;
    while i < slots.len()
        invariant
            i <= slots@.len(),
            forall|k: int| 0 <= k < i ==> #[trigger] slots@[k] is Some,
        decreases slots@.len() - i,
    {
        if slots[i].is_none() {
            return Some(i);
        }
        i = i + 1;
    }
    None
}

pub(crate) fn index_in(v: &Vec<u64>, x: u64) -> (r: Option<usize>)
    ensures
        match r {
            Some(i) => i < v@.len() && v@[i as int] == x,
            None => !v@.contains(x),
        },
{
    let mut i: usize = 0;
    while i < v.len()
        invariant
            i <= v@.len(),
            forall|k: int| 0 <= k < i ==> v@[k] != x,
        decreases v@.len() - i,
    {
        if v[i] == x {
            return Some(i);
        }
        i = i + 1;
    }
    None
}

/// The earliest started in-flight read whose object a group does not need.
pub open spec fn first_stale(pending: Seq<u64>, group: Seq<u64>) -> Option<u64>
    decreases pending.len(),
{
    if pending.len() == 0 {
        None
    } else if !group.contains(pending[0]) {
        Some(pending[0])
    } else {
        first_stale(pending.drop_first(), group)
    }
}

/// The first in-flight object (earliest started) that a group does not need.
fn stale_read(pending: &Vec<u64>, group: &Vec<u64>) -> (r: Option<u64>)
    ensures
        r == first_stale(pending@, group@),
        match r {
            Some(p) => pending@.contains(p) && !group@.contains(p),
            None => forall|k: int| 0 <= k < pending@.len() ==> group@.contains(#[trigger] pending@[k]),
        },
{
    let mut i: usize = 0;
    assert(pending@.skip(0) =~= pending@);
    while i < pending.len()
        invariant
            i <= pending@.len(),
            forall|k: int| 0 <= k < i ==> group@.contains(#[trigger] pending@[k]),
            first_stale(pending@, group@) == first_stale(pending@.skip(i as int), group@),
        decreases pending@.len() - i,
    {
        let p = pending[i];
        proof {
            assert(pending@.skip(i as int).drop_first() =~= pending@.skip(i + 1));
            assert(pending@.skip(i as int)[0] == p);
        }
        if index_in(group, p).is_none() {
            return Some(p);
        }
        i = i + 1;
    }
    proof {
        assert(pending@.skip(i as int) =~= Seq::<u64>::empty());
    }
    None
}

/// Message for a group that needs more slots than the ring has.
#[verifier::external_body]
fn slots_exceeded_message(n: usize) -> String {
    format!("CPU execution bundle exceeds {} fixed storage slots", n)
}

pub(crate) proof fn lemma_no_dup_remove(v: Seq<u64>, i: int)
    requires
        v.no_duplicates(),
        0 <= i < v.len(),
    ensures
        v.remove(i).no_duplicates(),
        !v.remove(i).contains(v[i]),
        forall|y: u64| y != v[i] ==> (v.remove(i).contains(y) <==> v.contains(y)),
{
    let r = v.remove(i);
    assert forall|a: int, b: int| 0 <= a < b < r.len() implies r[a] != r[b] by {
        let a2 = if a < i { a } else { a + 1 };
        let b2 = if b < i { b } else { b + 1 };
        assert(r[a] == v[a2] && r[b] == v[b2]);
    }
    if r.contains(v[i]) {
        let k = choose|k: int| 0 <= k < r.len() && r[k] == v[i];
        let k2 = if k < i { k } else { k + 1 };
        assert(v[k2] == v[i]);
    }
    assert forall|y: u64| y != v[i] implies (r.contains(y) <==> v.contains(y)) by {
        if v.contains(y) {
            let k = choose|k: int| 0 <= k < v.len() && v[k] == y;
            if k < i {
                assert(r[k] == y);
            } else {
                assert(k != i);
                assert(r[k - 1] == y);
            }
        }
        if r.contains(y) {
            let k = choose|k: int| 0 <= k < r.len() && r[k] == y;
            let k2 = if k < i { k } else { k + 1 };
            assert(v[k2] == y);
        }
    }
}

pub(crate) proof fn lemma_no_dup_push(v: Seq<u64>, x: u64)
    requires
        v.no_duplicates(),
        !v.contains(x),
    ensures
        v.push(x).no_duplicates(),
        forall|y: u64| v.push(x).contains(y) <==> (v.contains(y) || y == x),
{
    let p = v.push(x);
    assert forall|a: int, b: int| 0 <= a < b < p.len() implies p[a] != p[b] by {
        if b == v.len() {
            assert(v.contains(v[a]));
        }
    }
    assert forall|y: u64| p.contains(y) <==> (v.contains(y) || y == x) by {
        if v.contains(y) {
            let k = choose|k: int| 0 <= k < v.len() && v[k] == y;
            assert(p[k] == y);
        }
        if y == x {
            assert(p[v.len() as int] == y);
        }
        if p.contains(y) {
            let k = choose|k: int| 0 <= k < p.len() && p[k] == y;
            if k < v.len() {
                assert(v[k] == y);
            }
        }
    }
}

/// The slots once those whose object a group does not need are emptied.
pub open spec fn kept(slots: Seq<Option<ResidentRead>>, group: Seq<u64>) -> Seq<Option<ResidentRead>> {
    Seq::new(
        slots.len(),
        |i: int| if slots[i] is Some && !group.contains(slots[i].unwrap().object) { None } else { slots[i] },
    )
}

/// The slots a needed group empties, in order.
pub open spec fn evictions(slots: Seq<Option<ResidentRead>>, group: Seq<u64>, n: int) -> Seq<usize>
    decreases n,
{
    if n <= 0 {
        Seq::empty()
    } else {
        let e = evictions(slots, group, n - 1);
        if slots[n - 1] is Some && !group.contains(slots[n - 1].unwrap().object) {
            e.push((n - 1) as usize)
        } else {
            e
        }
    }
}

impl CpuWeightRing {
    fn group_objects(&self, weights: &[u64]) -> (g: Vec<u64>)
        requires
            self.wf(),
        ensures
            g@ == group_of(self.catalog(), weights@),
    {
        let mut g: Vec<u64> = Vec::new();
        let mut i: usize = 0;
        assert(weights@.take(0) =~= Seq::<u64>::empty());
        while i < weights.len()
            invariant
                self.wf(),
                i <= weights@.len(),
                g@ == group_of(self.catalog(), weights@.take(i as int)),
            decreases weights@.len() - i,
        {
            proof {
                assert(weights@.take(i + 1).drop_last() =~= weights@.take(i as int));
                assert(weights@.take(i + 1).last() == weights@[i as int]);
            }
            match self.weight_objects.get(&weights[i]) {
                Some(o) => {
                    let o = *o;
                    if index_in(&g, o).is_none() {
                        g.push(o);
                    }
                },
                None => {},
            }
            i = i + 1;
        }
        assert(weights@.take(weights@.len() as int) =~= weights@);
        g
    }

    /// Start prefetching the storage objects of a group of weights. A group that is not
    /// needed now is read ahead only when the ring overlaps reads with compute; otherwise
    /// there is nothing to do. For a needed group, every resident slot whose object the
    /// group does not need is emptied first: the caller moves the buffers of the returned
    /// slots to its idle buffers.
    pub fn begin_prefetch(&mut self, weights: &[u64], required: bool) -> (r: (PrefetchRun, Vec<usize>))
        requires
            old(self).wf(),
            old(self).buffer_books().1 == 0,
        ensures
            final(self).wf(),
            run_wf(&*final(self), &r.0),
            r.0.spec_phase() == Phase::Scan,
            r.0.done_count() == 0,
            r.0.spec_required() == required,
            r.0.group() == if !required && !old(self).spec_overlap() {
                Seq::<u64>::empty()
            } else {
                group_of(old(self).catalog(), weights@)
            },
            final(self).catalog() == old(self).catalog(),
            final(self).in_flight() == old(self).in_flight(),
            final(self).counters() == old(self).counters(),
            final(self).spec_overlap() == old(self).spec_overlap(),
            final(self).spec_slot_bytes() == old(self).spec_slot_bytes(),
            if required && r.0.group().len() > 0 {
                &&& final(self).slots() == kept(old(self).slots(), r.0.group())
                &&& r.1@ == evictions(old(self).slots(), r.0.group(), old(self).slots().len() as int)
                &&& final(self).idle_buffers() == old(self).idle_buffers() + r.1@.len()
            } else {
                &&& final(self).slots() == old(self).slots()
                &&& r.1@.len() == 0
                &&& final(self).idle_buffers() == old(self).idle_buffers()
            },
    {
        let mut evicted: Vec<usize> = Vec::new();
        if !required && !self.overlap {
            let run = PrefetchRun { objects: Vec::new(), next: 0, required, phase: Phase::Scan };
            return (run, evicted);
        }
        let group = self.group_objects(weights);
        proof {
            lemma_group_no_duplicates(self.catalog(), weights@);
            lemma_group_entries(self.catalog(), weights@);
        }
        if required && group.len() > 0 {
            let n = self.resident.len();
            let mut i: usize = 0;
            let ghost old_slots = self.resident@;
            let ghost old_idle = self.idle as nat;
            while i < n
                invariant
                    n == old_slots.len(),
                    i <= n,
                    self.resident@.len() == n,
                    forall|k: int| 0 <= k < i ==> #[trigger] self.resident@[k] == kept(old_slots, group@)[k],
                    forall|k: int| i <= k < n ==> #[trigger] self.resident@[k] == old_slots[k],
                    evicted@ == evictions(old_slots, group@, i as int),
                    self.idle == old_idle + evicted@.len(),
                    occupied(self.resident@) + evicted@.len() == occupied(old_slots),
                    self.objects@ == old(self).objects@,
                    self.weight_objects@ == old(self).weight_objects@,
                    self.entries@ == old(self).entries@,
                    self.pending@ == old(self).pending@,
                    self.buffers@ == old(self).buffers@,
                    self.in_hand@ == old(self).in_hand@,
                    self.lost@ == old(self).lost@,
                    self.physical_reads == old(self).physical_reads,
                    self.physical_bytes == old(self).physical_bytes,
                    self.read_nanos == old(self).read_nanos,
                    self.wait_nanos == old(self).wait_nanos,
                    self.overlap == old(self).overlap,
                    self.slot_bytes == old(self).slot_bytes,
                    old_slots == old(self).resident@,
                    old_idle == old(self).idle,
                    old(self).wf(),
                decreases n - i,
            {
                let evict = match self.resident[i] {
                    Some(r) => index_in(&group, r.object).is_none(),
                    None => false,
                };
                if evict {
                    proof {
                        lemma_occupied_update(self.resident@, i as int, None);
                        lemma_occupied_bound(self.resident@);
                        lemma_occupied_bound(old_slots);
                    }
                    self.resident.set(i, None);
                    self.idle = self.idle + 1;
                    evicted.push(i);
                }
                i = i + 1;
            }
            proof {
                assert(self.resident@ =~= kept(old_slots, group@));
                let s = self.resident@;
                assert forall|a: int, b: int| #![trigger s[a], s[b]]
                    0 <= a < s.len() && 0 <= b < s.len() && a != b && s[a] is Some && s[b] is Some
                        implies s[a].unwrap().object != s[b].unwrap().object by {
                    assert(s[a] == old_slots[a] && s[b] == old_slots[b]);
                }
                assert forall|k: int| 0 <= k < self.pending@.len() implies !holds(self.resident@, #[trigger] self.pending@[k])
                    && entry_of(self.objects@, self.pending@[k]) is Some by {
                    if holds(self.resident@, self.pending@[k]) {
                        let j = choose|j: int| 0 <= j < s.len() && #[trigger] s[j] is Some && s[j].unwrap().object
                            == self.pending@[k];
                        assert(s[j] == old_slots[j]);
                        assert(holds(old_slots, self.pending@[k]));
                    }
                }
            }
        }
        (PrefetchRun { objects: group, next: 0, required, phase: Phase::Scan }, evicted)
    }
}

pub(crate) proof fn lemma_object_has_entry(objects: Seq<StorageObject>, w: u64)
    requires
        object_of(objects, w) is Some,
    ensures
        entry_of(objects, object_of(objects, w).unwrap()) is Some,
    decreases objects.len(),
{
    let o = object_of(objects, w).unwrap();
    if object_of(objects.drop_last(), w) is Some && o != objects.last().id {
        lemma_object_has_entry(objects.drop_last(), w);
    }
}


proof fn lemma_group_entries(catalog: Seq<StorageObject>, weights: Seq<u64>)
    ensures
        forall|k: int| 0 <= k < group_of(catalog, weights).len() ==> entry_of(catalog, #[trigger] group_of(catalog, weights)[k]) is Some,
    decreases weights.len(),
{
    if weights.len() > 0 {
        lemma_group_entries(catalog, weights.drop_last());
        let g = group_of(catalog, weights.drop_last());
        if let Some(o) = object_of(catalog, weights.last()) {
            lemma_object_has_entry(catalog, weights.last());
            assert forall|k: int| 0 <= k < g.push(o).len() implies entry_of(catalog, #[trigger] g.push(o)[k]) is Some by {
                if k < g.len() {
                    assert(g.push(o)[k] == g[k]);
                }
            }
        }
    }
}

proof fn lemma_scan_never_missing(
    slots: Seq<Option<ResidentRead>>,
    idle: nat,
    pending: Seq<u64>,
    catalog: Seq<StorageObject>,
    g: Seq<u64>,
    required: bool,
    from: int,
)
    requires
        forall|k: int| 0 <= k < g.len() ==> entry_of(catalog, #[trigger] g[k]) is Some,
    ensures
        !(ring_scan(slots, idle, pending, catalog, g, required, from).1 is Missing),
    decreases g.len() - from,
{
    if 0 <= from < g.len() {
        lemma_scan_never_missing(slots, idle, pending, catalog, g, required, from + 1);
        assert(entry_of(catalog, g[from]) is Some);
    }
}

/// Where a prefetch scan stops.
#[derive(Debug, Clone, Copy, PartialEq, Eq, Structural)]
pub enum ScanStop {
    /// Every object of the group is dealt with.
    Done,
    /// An object has no catalog entry.
    Missing,
    /// A stale read is to be reclaimed first.
    Reclaim(u64),
    /// A read of an object, with its extent length, is to start.
    Read(u64, u64),
    /// A read is to be awaited.
    Await(u64),
    /// A needed object has neither an idle buffer nor a stale read to take one from.
    NoSlot,
}

/// Where a scan of the group `g` from index `from` stops, and at which index, over the
/// slots, idle buffers and in-flight reads given. An object is passed over when it is
/// resident; when its read is in flight and the group is not needed now; or when it is
/// neither, the group is not needed now and no buffer is idle.
pub open spec fn ring_scan(
    slots: Seq<Option<ResidentRead>>,
    idle: nat,
    pending: Seq<u64>,
    catalog: Seq<StorageObject>,
    g: Seq<u64>,
    required: bool,
    from: int,
) -> (int, ScanStop)
    decreases g.len() - from,
{
    if from < 0 || from >= g.len() {
        (from, ScanStop::Done)
    } else {
        let o = g[from];
        if holds(slots, o) {
            ring_scan(slots, idle, pending, catalog, g, required, from + 1)
        } else if !pending.contains(o) {
            match entry_of(catalog, o) {
                None => (from, ScanStop::Missing),
                Some(e) => if required && idle == 0 {
                    match first_stale(pending, g) {
                        Some(p) => (from, ScanStop::Reclaim(p)),
                        None => (from, ScanStop::NoSlot),
                    }
                } else if idle > 0 {
                    (from, ScanStop::Read(o, e.len))
                } else {
                    ring_scan(slots, idle, pending, catalog, g, required, from + 1)
                },
            }
        } else if required {
            (from, ScanStop::Await(o))
        } else {
            ring_scan(slots, idle, pending, catalog, g, required, from + 1)
        }
    }
}

/// The step a scan stop asks for, and the index the run stands at.
pub open spec fn stop_matches(stop: (int, ScanStop), step: RingStep, next: nat) -> bool {
    &&& next == stop.0
    &&& match stop.1 {
        ScanStop::Done => step is Done,
        ScanStop::Missing => step matches RingStep::Failed(FellmError::Other(m)) && m@ == "CPU prefetch object missing"@,
        ScanStop::Reclaim(p) => step == RingStep::Reclaim(p),
        ScanStop::Read(o, l) => step == (RingStep::Read { object: o, len: l }),
        ScanStop::Await(o) => step == RingStep::Await(o),
        ScanStop::NoSlot => step matches RingStep::Failed(FellmError::Other(m))
            && m@ == "CPU storage ring has no demand slot"@,
    }
}

/// `a + b`, or `u64::MAX` when that overflows.
pub open spec fn sat_add(a: u64, b: nat) -> u64 {
    if a + b > u64::MAX {
        u64::MAX
    } else {
        (a + b) as u64
    }
}

/// A sequence without the one occurrence of `x` it holds.
pub open spec fn without(s: Seq<u64>, x: u64) -> Seq<u64> {
    s.remove(choose|i: int| 0 <= i < s.len() && s[i] == x)
}

pub(crate) proof fn lemma_without(s: Seq<u64>, i: int)
    requires
        s.no_duplicates(),
        0 <= i < s.len(),
    ensures
        without(s, s[i]) == s.remove(i),
{
    let j = choose|j: int| 0 <= j < s.len() && s[j] == s[i];
    assert(j == i);
}

impl CpuWeightRing {
    fn entry_len(&self, o: u64) -> (r: Option<u64>)
        requires
            self.wf(),
        ensures
            match entry_of(self.catalog(), o) {
                Some(e) => r == Some(e.len),
                None => r is None,
            },
    {
        match self.entries.get(&o) {
            Some(i) => Some(self.objects[*i].len),
            None => None,
        }
    }

    /// Carry a prefetch one step further, given what came of the caller's last step.
    ///
    /// Each object of the group, in order: nothing when it is resident already. Otherwise,
    /// unless its read is in flight, a read of its extent into an idle buffer; for a needed
    /// group with no idle buffer, first an in-flight read that the group does not need is
    /// reclaimed (the earliest started), and with none to reclaim the prefetch fails. Then,
    /// for a needed group, the read is awaited and its buffer placed in the first empty
    /// slot. A read that finishes counts towards the read counters.
    pub fn advance(&mut self, run: &mut PrefetchRun, outcome: StepOutcome) -> (step: RingStep)
        requires
            old(self).wf(),
            run_wf(&*old(self), &*old(run)),
            outcome_fits(old(run).spec_phase(), outcome),
        ensures
            final(self).wf(),
            run_wf(&*final(self), &*final(run)),
            final(run).group() == old(run).group(),
            final(run).spec_required() == old(run).spec_required(),
            final(self).catalog() == old(self).catalog(),
            final(self).spec_overlap() == old(self).spec_overlap(),
            final(self).spec_slot_bytes() == old(self).spec_slot_bytes(),
            forall|o: u64| holds(old(self).slots(), o) ==> holds(final(self).slots(), o),
            step is Done ==> final(run).spec_phase() == Phase::Over && (old(run).spec_required() ==> forall|k: int|
                0 <= k < old(run).group().len() ==> holds(final(self).slots(), #[trigger] old(run).group()[k])),
            step is Done ==> final(run).done_count() == old(run).group().len(),
            step is Done && !old(run).spec_required() ==> forall|k: int| 0 <= k < old(run).group().len() ==> holds(
                final(self).slots(),
                #[trigger] old(run).group()[k],
            ) || final(self).in_flight().contains(old(run).group()[k]) || final(self).idle_buffers() == 0,
            step is Failed ==> final(run).spec_phase() == Phase::Over,
            step matches RingStep::Reclaim(p) ==> final(run).spec_phase() == Phase::Reclaiming(p)
                && final(self).idle_buffers() == 0,
            step matches RingStep::Read { object, len } ==> final(run).spec_phase() == Phase::Reading(object) && (
            entry_of(final(self).catalog(), object) matches Some(e) && e.len == len),
            step matches RingStep::Await(o) ==> final(run).spec_phase() == Phase::Awaiting(o),
            step matches RingStep::Place(i) ==> final(run).spec_phase() == Phase::Placing && old(run).spec_phase() is Awaiting
                && i < old(self).slots().len() && old(self).slots()[i as int] is None && (forall|k: int| 0 <= k < i
                ==> #[trigger] old(self).slots()[k] is Some) && (entry_of(old(self).catalog(), old(run).spec_phase()->Awaiting_0)
                matches Some(e) && final(self).slots() == old(self).slots().update(
                i as int,
                Some(ResidentRead { object: old(run).spec_phase()->Awaiting_0, valid_len: e.len }),
            )),
            step is Failed ==> outcome is Failed || (step matches RingStep::Failed(FellmError::Other(m)) && (m@
                == "CPU storage ring has no demand slot"@ || (old(run).spec_phase() is Awaiting && forall|k: int|
                0 <= k < old(self).slots().len() ==> #[trigger] old(self).slots()[k] is Some))),
            ({
                let c = old(self).counters();
                let g = old(run).group();
                let req = old(run).spec_required();
                let n = old(run).done_count() as int;
                let slots = old(self).slots();
                let idle = old(self).idle_buffers();
                let pend = old(self).in_flight();
                let cat = old(self).catalog();
                let taken = if step is Read { 1int } else { 0int };
                match old(run).spec_phase() {
                    Phase::Scan => {
                        &&& stop_matches(ring_scan(slots, idle, pend, cat, g, req, n), step, final(run).done_count())
                        &&& final(self).in_flight() == pend && final(self).counters() == c
                        &&& final(self).idle_buffers() == idle - taken
                    },
                    Phase::Placing => {
                        &&& stop_matches(ring_scan(slots, idle, pend, cat, g, req, n + 1), step, final(run).done_count())
                        &&& final(self).in_flight() == pend && final(self).counters() == c
                        &&& final(self).idle_buffers() == idle - taken
                    },
                    Phase::Reclaiming(p) => {
                        let len: nat = match entry_of(cat, p) { Some(e) => e.len as nat, None => 0 };
                        match outcome {
                            StepOutcome::Finished { read_nanos, .. } => {
                                &&& stop_matches(
                                    ring_scan(slots, idle + 1, without(pend, p), cat, g, req, n),
                                    step,
                                    final(run).done_count(),
                                )
                                &&& final(self).in_flight() == without(pend, p)
                                &&& final(self).counters() == (sat_add(c.0, 1), sat_add(c.1, len), sat_add(
                                    c.2,
                                    read_nanos as nat,
                                ), c.3)
                                &&& final(self).idle_buffers() == idle + 1 - taken
                            },
                            StepOutcome::Failed(e) => step == RingStep::Failed(e) && final(self).in_flight() == without(
                                pend,
                                p,
                            ) && final(self).counters() == c && final(self).idle_buffers() == idle,
                            StepOutcome::Carried => true,
                        }
                    },
                    Phase::Reading(o) => match outcome {
                        StepOutcome::Carried => {
                            &&& stop_matches(ring_scan(slots, idle, pend.push(o), cat, g, req, n), step, final(run).done_count())
                            &&& final(self).in_flight() == pend.push(o) && final(self).counters() == c
                            &&& final(self).idle_buffers() == idle - taken
                        },
                        StepOutcome::Failed(e) => step == RingStep::Failed(e) && final(self).in_flight() == pend
                            && final(self).counters() == c && final(self).idle_buffers() == idle,
                        StepOutcome::Finished { .. } => true,
                    },
                    Phase::Awaiting(o) => {
                        let len: nat = match entry_of(cat, o) { Some(e) => e.len as nat, None => 0 };
                        match outcome {
                            StepOutcome::Finished { read_nanos, wait_nanos } => {
                                &&& final(self).in_flight() == without(pend, o)
                                &&& final(self).counters() == (sat_add(c.0, 1), sat_add(c.1, len), sat_add(
                                    c.2,
                                    read_nanos as nat,
                                ), sat_add(c.3, wait_nanos as nat))
                                &&& final(self).idle_buffers() == idle
                                &&& (step is Place <==> exists|k: int| 0 <= k < slots.len() && #[trigger] slots[k] is None)
                                &&& final(run).done_count() == n
                            },
                            StepOutcome::Failed(e) => step == RingStep::Failed(e) && final(self).in_flight() == without(
                                pend,
                                o,
                            ) && final(self).counters() == c && final(self).idle_buffers() == idle,
                            StepOutcome::Carried => true,
                        }
                    },
                    Phase::Over => true,
                }
            }),
    {
        let ghost g = run.objects@;
        match run.phase {
            Phase::Reclaiming(p) => {
                let len = match self.entry_len(p) {
                    Some(l) => l,
                    None => 0,
                };
                let idx = index_in(&self.pending, p);
                proof {
                    lemma_no_dup_remove(self.pending@, idx.unwrap() as int);
                }
                self.pending.remove(idx.unwrap());
                match outcome {
                    StepOutcome::Finished { read_nanos, wait_nanos: _ } => {
                        self.physical_reads = self.physical_reads.saturating_add(1);
                        self.physical_bytes = self.physical_bytes.saturating_add(len);
                        self.read_nanos = self.read_nanos.saturating_add(read_nanos);
                        self.idle = self.idle + 1;
                        run.phase = Phase::Scan;
                    },
                    StepOutcome::Failed(e) => {
                        self.lost = Ghost(self.lost@ + 1);
                        run.phase = Phase::Over;
                        return RingStep::Failed(e);
                    },
                    StepOutcome::Carried => {
                        self.lost = Ghost(self.lost@ + 1);
                        run.phase = Phase::Over;
                        return RingStep::Failed(FellmError::other("CPU speculative storage reader panicked"));
                    },
                }
            },
            Phase::Reading(o) => {
                match outcome {
                    StepOutcome::Carried => {
                        proof {
                            lemma_no_dup_push(self.pending@, o);
                        }
                        self.pending.push(o);
                        self.in_hand = Ghost(0);
                        run.phase = Phase::Scan;
                    },
                    StepOutcome::Failed(e) => {
                        self.in_hand = Ghost(0);
                        self.lost = Ghost(self.lost@ + 1);
                        run.phase = Phase::Over;
                        return RingStep::Failed(e);
                    },
                    StepOutcome::Finished { .. } => {
                        self.in_hand = Ghost(0);
                        self.lost = Ghost(self.lost@ + 1);
                        run.phase = Phase::Over;
                        return RingStep::Failed(FellmError::other("CPU storage reader did not start"));
                    },
                }
            },
            Phase::Awaiting(o) => {
                let len = match self.entry_len(o) {
                    Some(l) => l,
                    None => 0,
                };
                let idx = index_in(&self.pending, o);
                proof {
                    lemma_no_dup_remove(self.pending@, idx.unwrap() as int);
                }
                self.pending.remove(idx.unwrap());
                match outcome {
                    StepOutcome::Finished { read_nanos, wait_nanos } => {
                        self.wait_nanos = self.wait_nanos.saturating_add(wait_nanos);
                        self.physical_reads = self.physical_reads.saturating_add(1);
                        self.physical_bytes = self.physical_bytes.saturating_add(len);
                        self.read_nanos = self.read_nanos.saturating_add(read_nanos);
                        match first_empty(&self.resident) {
                            Some(i) => {
                                proof {
                                    lemma_occupied_update(self.resident@, i as int, Some(ResidentRead { object: o, valid_len: len }));
                                }
                                let ghost before = self.resident@;
                                self.resident.set(i, Some(ResidentRead { object: o, valid_len: len }));
                                proof {
                                    let s = self.resident@;
                                    assert(s =~= before.update(i as int, Some(ResidentRead { object: o, valid_len: len })));
                                    assert forall|a: int, b: int| #![trigger s[a], s[b]]
                                        0 <= a < s.len() && 0 <= b < s.len() && a != b && s[a] is Some && s[b] is Some
                                            implies s[a].unwrap().object != s[b].unwrap().object by {
                                        if a == i {
                                            assert(!(before[b] is Some && before[b].unwrap().object == o));
                                        } else if b == i {
                                            assert(!(before[a] is Some && before[a].unwrap().object == o));
                                        } else {
                                            assert(s[a] == before[a] && s[b] == before[b]);
                                        }
                                    }
                                    assert(holds(s, o)) by {
                                        assert(s[i as int] is Some && s[i as int].unwrap().object == o);
                                    }
                                    assert forall|k: int| 0 <= k < self.pending@.len() implies !holds(
                                        s,
                                        #[trigger] self.pending@[k],
                                    ) by {
                                        let q = self.pending@[k];
                                        assert(old(self).pending@.contains(q)) by {
                                            assert(self.pending@.contains(q));
                                        }
                                        if holds(s, q) {
                                            let j = choose|j: int| 0 <= j < s.len() && #[trigger] s[j] is Some
                                                && s[j].unwrap().object == q;
                                            if j != i {
                                                assert(s[j] == before[j]);
                                                let k0 = choose|k0: int| 0 <= k0 < old(self).pending@.len()
                                                    && old(self).pending@[k0] == q;
                                                assert(!holds(before, old(self).pending@[k0]));
                                            }
                                        }
                                    }
                                    assert forall|x: u64| holds(before, x) implies holds(s, x) by {
                                        let j = choose|j: int| 0 <= j < before.len() && #[trigger] before[j] is Some
                                            && before[j].unwrap().object == x;
                                        assert(j != i);
                                        assert(s[j] == before[j]);
                                    }
                                    assert forall|k: int| 0 <= k < run.next implies holds(s, #[trigger] g[k]) by {
                                        if run.required {
                                            assert(holds(before, g[k]));
                                        }
                                    }
                                }
                                run.phase = Phase::Placing;
                                return RingStep::Place(i);
                            },
                            None => {
                                self.lost = Ghost(self.lost@ + 1);
                                run.phase = Phase::Over;
                                return RingStep::Failed(FellmError::Other(slots_exceeded_message(self.resident.len())));
                            },
                        }
                    },
                    StepOutcome::Failed(e) => {
                        self.lost = Ghost(self.lost@ + 1);
                        run.phase = Phase::Over;
                        return RingStep::Failed(e);
                    },
                    StepOutcome::Carried => {
                        self.lost = Ghost(self.lost@ + 1);
                        run.phase = Phase::Over;
                        return RingStep::Failed(FellmError::other("CPU storage reader panicked"));
                    },
                }
            },
            Phase::Placing => {
                let n = run.objects.len();
                assert(run.next < n);
                run.next = run.next + 1;
                run.phase = Phase::Scan;
            },
            Phase::Scan => {},
            Phase::Over => {
                return RingStep::Done;
            },
        }
        self.scan(run)
    }

    fn scan(&mut self, run: &mut PrefetchRun) -> (step: RingStep)
        requires
            old(self).wf(),
            run_wf(&*old(self), &*old(run)),
            old(run).spec_phase() == Phase::Scan,
        ensures
            final(self).wf(),
            run_wf(&*final(self), &*final(run)),
            final(run).group() == old(run).group(),
            final(run).spec_required() == old(run).spec_required(),
            final(self).catalog() == old(self).catalog(),
            final(self).spec_overlap() == old(self).spec_overlap(),
            final(self).spec_slot_bytes() == old(self).spec_slot_bytes(),
            final(self).slots() == old(self).slots(),
            step is Done ==> final(run).spec_phase() == Phase::Over && (old(run).spec_required() ==> forall|k: int|
                0 <= k < old(run).group().len() ==> holds(final(self).slots(), #[trigger] old(run).group()[k])),
            step is Failed ==> final(run).spec_phase() == Phase::Over,
            step matches RingStep::Reclaim(p) ==> final(run).spec_phase() == Phase::Reclaiming(p)
                && final(self).idle_buffers() == 0,
            step matches RingStep::Read { object, len } ==> final(run).spec_phase() == Phase::Reading(object) && (
            entry_of(final(self).catalog(), object) matches Some(e) && e.len == len),
            step matches RingStep::Await(o) ==> final(run).spec_phase() == Phase::Awaiting(o),
            !(step is Place),
            step is Done ==> final(run).done_count() == old(run).group().len(),
            stop_matches(
                ring_scan(
                    old(self).slots(),
                    old(self).idle_buffers(),
                    old(self).in_flight(),
                    old(self).catalog(),
                    old(run).group(),
                    old(run).spec_required(),
                    old(run).done_count() as int,
                ),
                step,
                final(run).done_count(),
            ),
            final(self).in_flight() == old(self).in_flight(),
            final(self).counters() == old(self).counters(),
            final(self).idle_buffers() == old(self).idle_buffers() - (if step is Read { 1int } else { 0int }),
            !(ring_scan(
                old(self).slots(),
                old(self).idle_buffers(),
                old(self).in_flight(),
                old(self).catalog(),
                old(run).group(),
                old(run).spec_required(),
                old(run).done_count() as int,
            ).1 is Missing),
    {
        proof {
            lemma_scan_never_missing(
                self.resident@,
                self.idle as nat,
                self.pending@,
                self.objects@,
                run.objects@,
                run.required,
                run.next as int,
            );
        }
        let ghost g = run.objects@;
        while run.next < run.objects.len()
            invariant
                self.wf(),
                run_wf(&*self, &*run),
                run.phase == Phase::Scan,
                run.objects@ == g,
                g == old(run).objects@,
                run.required == old(run).required,
                self.objects@ == old(self).objects@,
                self.resident@ == old(self).resident@,
                self.overlap == old(self).overlap,
                self.slot_bytes == old(self).slot_bytes,
                self.pending@ == old(self).pending@,
                self.idle == old(self).idle,
                self.physical_reads == old(self).physical_reads,
                self.physical_bytes == old(self).physical_bytes,
                self.read_nanos == old(self).read_nanos,
                self.wait_nanos == old(self).wait_nanos,
                old(run).next <= run.next,
                ring_scan(self.resident@, self.idle as nat, self.pending@, self.objects@, g, run.required, run.next as int)
                    == ring_scan(
                    old(self).resident@,
                    old(self).idle as nat,
                    old(self).pending@,
                    old(self).objects@,
                    g,
                    run.required,
                    old(run).next as int,
                ),
            decreases g.len() - run.next,
        {
            let o = run.objects[run.next];
            if holds_exec(&self.resident, o) {
                run.next = run.next + 1;
            } else {
                let was_pending = index_in(&self.pending, o).is_some();
                let mut start = false;
                let mut len: u64 = 0;
                if !was_pending {
                    len = match self.entry_len(o) {
                        Some(l) => l,
                        None => {
                            run.phase = Phase::Over;
                            return RingStep::Failed(FellmError::other("CPU prefetch object missing"));
                        },
                    };
                    if run.required && self.idle == 0 {
                        match stale_read(&self.pending, &run.objects) {
                            Some(p) => {
                                run.phase = Phase::Reclaiming(p);
                                return RingStep::Reclaim(p);
                            },
                            None => {},
                        }
                    }
                    if self.idle > 0 {
                        start = true;
                    } else if run.required {
                        run.phase = Phase::Over;
                        return RingStep::Failed(FellmError::other("CPU storage ring has no demand slot"));
                    }
                }
                if start {
                    self.idle = self.idle - 1;
                    self.in_hand = Ghost(1);
                    run.phase = Phase::Reading(o);
                    return RingStep::Read { object: o, len };
                }
                if run.required {
                    if index_in(&self.pending, o).is_none() {
                        run.phase = Phase::Over;
                        return RingStep::Failed(FellmError::other("CPU required prefetch missing"));
                    }
                    run.phase = Phase::Awaiting(o);
                    return RingStep::Await(o);
                }
                run.next = run.next + 1;
            }
        }
        run.phase = Phase::Over;
        RingStep::Done
    }
}

/// The first member of a list for this weight.
pub open spec fn first_member(members: Seq<ObjectMember>, weight: u64) -> Option<ObjectMember>
    decreases members.len(),
{
    if members.len() == 0 {
        None
    } else if members[0].weight == weight {
        Some(members[0])
    } else {
        first_member(members.drop_first(), weight)
    }
}

/// The first slot holding an object.
pub open spec fn slot_of(slots: Seq<Option<ResidentRead>>, o: u64, from: int) -> Option<int>
    decreases slots.len() - from,
{
    if from < 0 || from >= slots.len() {
        None
    } else if slots[from] is Some && slots[from].unwrap().object == o {
        Some(from)
    } else {
        slot_of(slots, o, from + 1)
    }
}

/// Where a resident weight's bytes are: its slot, and its offset and length in the
/// slot's read.
#[derive(Debug, Clone, Copy, PartialEq, Eq, Structural)]
pub struct WeightSite {
    /// Resident slot.
    pub slot: usize,
    /// Byte offset in the slot's read.
    pub offset: u64,
    /// Byte length.
    pub len: u64,
}

/// Message for a storage-backed weight whose object is not resident.
#[verifier::external_body]
fn unpublished_message(weight: u64) -> String {
    format!("CPU weight {} was not published before kernel launch", weight)
}

/// Read and byte counts of the ring, for the CPU backend's storage metrics.
#[derive(Debug, Clone, Copy, PartialEq, Eq, Structural)]
pub struct RingCounts {
    /// Completed reads.
    pub physical_reads: u64,
    /// Bytes of completed reads.
    pub physical_bytes: u64,
    /// Time kernels waited for reads.
    pub storage_stall_nanos: u64,
    /// Time the reads took.
    pub read_nanos: u64,
    /// Bytes of all staging slots.
    pub staging_bytes: u64,
    /// Read bytes served through the page cache (buffered, page-cache or mmap providers).
    pub buffered_storage_bytes: u64,
    /// Read bytes served by direct I/O.
    pub direct_storage_bytes: u64,
    /// Valid bytes held in resident slots.
    pub resident_dense_bytes: u64,
}

/// The valid bytes of the resident slots.
pub open spec fn resident_bytes(slots: Seq<Option<ResidentRead>>) -> nat
    decreases slots.len(),
{
    if slots.len() == 0 {
        0
    } else {
        resident_bytes(slots.drop_last()) + match slots.last() {
            Some(r) => r.valid_len as nat,
            None => 0,
        }
    }
}

impl CpuWeightRing {
    /// Where a weight's bytes are for a kernel launch. `None` for a weight that is in no
    /// storage object. For one that is: the first member entry for it in its object's
    /// catalog entry, in the first slot that holds the object; a weight whose object is not
    /// resident fails.
    pub fn locate_weight(&self, weight: u64) -> (r: Result<Option<WeightSite>, FellmError>)
        requires
            self.wf(),
        ensures
            match object_of(self.catalog(), weight) {
                None => r matches Ok(None),
                Some(o) => match entry_of(self.catalog(), o) {
                    None => r matches Err(FellmError::Other(m)) && m@ == "CPU storage object missing"@,
                    Some(e) => match first_member(e.members@, weight) {
                        None => r matches Err(FellmError::Other(m)) && m@ == "CPU storage object member missing"@,
                        Some(mb) => match slot_of(self.slots(), o, 0) {
                            None => r matches Err(FellmError::Other(_)),
                            Some(i) => r matches Ok(Some(site)) && site == (WeightSite {
                                slot: i as usize,
                                offset: mb.offset,
                                len: mb.len,
                            }),
                        },
                    },
                },
            },
    {
        let o = match self.weight_objects.get(&weight) {
            Some(o) => *o,
            None => {
                return Ok(None);
            },
        };
        let e = match self.entries.get(&o) {
            Some(i) => *i,
            None => {
                return Err(FellmError::other("CPU storage object missing"));
            },
        };
        let members = &self.objects[e].members;
        let mut j: usize = 0;
        let mut found: Option<ObjectMember> = None;
        assert(members@.skip(0) =~= members@);
        while j < members.len() && found.is_none()
            invariant
                j <= members@.len(),
                found is None ==> first_member(members@, weight) == first_member(members@.skip(j as int), weight),
                found is Some ==> found == first_member(members@, weight),
            decreases members@.len() - j + if found is None { 1int } else { 0int },
        {
            proof {
                assert(members@.skip(j as int).drop_first() =~= members@.skip(j + 1));
                assert(members@.skip(j as int)[0] == members@[j as int]);
            }
            if members[j].weight == weight {
                found = Some(members[j]);
            } else {
                j = j + 1;
            }
        }
        proof {
            if found is None {
                assert(members@.skip(j as int) =~= Seq::<ObjectMember>::empty());
            }
        }
        let mb = match found {
            Some(m) => m,
            None => {
                return Err(FellmError::other("CPU storage object member missing"));
            },
        };
        let mut i: usize = 0;
        while i < self.resident.len()
            invariant
                self.wf(),
                i <= self.resident@.len(),
                slot_of(self.resident@, o, 0) == slot_of(self.resident@, o, i as int),
                Some(o) == object_of(self.objects@, weight),
                (e as int) < self.objects@.len(),
                entry_of(self.objects@, o) == Some(self.objects@[e as int]),
                Some(mb) == first_member(self.objects@[e as int].members@, weight),
            decreases self.resident@.len() - i,
        {
            match self.resident[i] {
                Some(rd) => if rd.object == o {
                    proof {
                        assert(slot_of(self.resident@, o, i as int) == Some(i as int));
                    }
                    return Ok(Some(WeightSite { slot: i, offset: mb.offset, len: mb.len }));
                },
                None => {},
            }
            i = i + 1;
        }
        Err(FellmError::Other(unpublished_message(weight)))
    }

    /// The ring's read and byte counts, for a ring read through `kind`.
    pub fn counts(&self, kind: StorageProviderKind) -> (c: RingCounts)
        requires
            self.wf(),
            self.slots().len() * self.spec_slot_bytes() <= u64::MAX,
        ensures
            c.physical_reads == self.counters().0,
            c.physical_bytes == self.counters().1,
            c.read_nanos == self.counters().2,
            c.storage_stall_nanos == self.counters().3,
            c.staging_bytes == self.slots().len() * self.spec_slot_bytes(),
            c.buffered_storage_bytes == match kind {
                StorageProviderKind::PageCache | StorageProviderKind::Buffered | StorageProviderKind::Mmap => self.counters().1,
                _ => 0,
            },
            c.direct_storage_bytes == if kind == StorageProviderKind::Direct { self.counters().1 } else { 0 },
            c.resident_dense_bytes == if resident_bytes(self.slots()) > u64::MAX {
                u64::MAX as nat
            } else {
                resident_bytes(self.slots())
            },
    {
        let mut dense: u64 = 0;
        let mut k: usize = 0;
        assert(self.resident@.take(0) =~= Seq::<Option<ResidentRead>>::empty());
        while k < self.resident.len()
            invariant
                k <= self.resident@.len(),
                dense == if resident_bytes(self.resident@.take(k as int)) > u64::MAX {
                    u64::MAX as nat
                } else {
                    resident_bytes(self.resident@.take(k as int))
                },
            decreases self.resident@.len() - k,
        {
            proof {
                assert(self.resident@.take(k + 1).drop_last() =~= self.resident@.take(k as int));
                assert(self.resident@.take(k + 1).last() == self.resident@[k as int]);
            }
            match self.resident[k] {
                Some(rd) => {
                    dense = dense.saturating_add(rd.valid_len);
                },
                None => {},
            }
            k = k + 1;
        }
        assert(self.resident@.take(self.resident@.len() as int) =~= self.resident@);
        let staging = (self.resident.len() as u64) * (self.slot_bytes as u64);
        RingCounts {
            physical_reads: self.physical_reads,
            physical_bytes: self.physical_bytes,
            storage_stall_nanos: self.wait_nanos,
            read_nanos: self.read_nanos,
            staging_bytes: staging,
            buffered_storage_bytes: match kind {
                StorageProviderKind::PageCache | StorageProviderKind::Buffered | StorageProviderKind::Mmap => self.physical_bytes,
                _ => 0,
            },
            direct_storage_bytes: if kind == StorageProviderKind::Direct { self.physical_bytes } else { 0 },
            resident_dense_bytes: dense,
        }
    }
}

impl CpuWeightRing {
    /// Number of resident slots.
    pub fn slot_count(&self) -> (n: usize)
        ensures
            n == self.slots().len(),
    {
        self.resident.len()
    }

    /// The read a resident slot holds.
    pub fn resident(&self, slot: usize) -> (r: Option<ResidentRead>)
        requires
            slot < self.slots().len(),
        ensures
            r == self.slots()[slot as int],
    {
        self.resident[slot]
    }

    /// Idle staging buffers.
    pub fn idle_count(&self) -> (n: usize)
        ensures
            n == self.idle_buffers(),
    {
        self.idle
    }

    /// Objects whose read is in flight, earliest started first.
    pub fn reads_in_flight(&self) -> (v: Vec<u64>)
        ensures
            v@ == self.in_flight(),
    {
        self.pending.clone()
    }
}

/// Every staging buffer of a ring is accounted for: held by a resident slot, idle, holding
/// a read in flight, taken for a read about to start, or lost with a failed read; and no
/// object is resident twice or both resident and in flight.
pub proof fn lemma_ring_books(r: &CpuWeightRing)
    requires
        r.wf(),
    ensures
        ({
            let (buffers, in_hand, lost) = r.buffer_books();
            occupied(r.slots()) + r.idle_buffers() + r.in_flight().len() + in_hand + lost == buffers
        }),
        distinct_residents(r.slots()),
        forall|k: int| 0 <= k < r.in_flight().len() ==> !holds(r.slots(), #[trigger] r.in_flight()[k]),
        r.in_flight().no_duplicates(),
{
}

} // verus!

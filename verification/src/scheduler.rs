//! The CUDA backend's storage-object scheduler: the storage objects of the streamed
//! weights, a direct-mapped set of device slots (an object lives in slot `id % slots`),
//! the state of each object on its way from storage to the device, and the decisions of a
//! weight-group prefetch. The reads, waits and uploads are the caller's.
use vstd::prelude::*;

use std::collections::HashMap;

use crate::error::FellmError;
use crate::ring::{
    index_in, lemma_no_dup_push, lemma_no_dup_remove, lemma_object_has_entry, lemma_without, without, StorageObject,
    StorageProviderKind,
};

verus! {

/// Where a storage object is on its way to the device.
#[derive(Debug, Clone, Copy, PartialEq, Eq, Structural)]
pub enum SlotState {
    /// Not on its way.
    Empty,
    /// Its read is queued.
    ReadQueued,
    /// Its read is awaited.
    Reading,
    /// Its bytes are in host memory.
    HostReady,
    /// Its upload is queued.
    H2dQueued,
    /// On the device, in use.
    InUse,
    /// On the device, ready.
    DeviceReady,
    /// On the device, may be evicted.
    Evictable,
}

/// Whether an object in this state is on the device.
pub open spec fn published(s: SlotState) -> bool {
    s == SlotState::DeviceReady || s == SlotState::InUse || s == SlotState::Evictable
}

/// Why the CUDA backend cannot stream weights with this provider, if it cannot.
pub open spec fn cuda_provider_refusal(kind: StorageProviderKind, linux: bool) -> Option<Seq<char>> {
    match kind {
        StorageProviderKind::IoUring => Some("io_uring was selected without an operational provider"@),
        StorageProviderKind::Gds => Some("GDS was selected without an operational provider"@),
        StorageProviderKind::Direct => if linux {
            None
        } else {
            Some("direct I/O provider requires Linux"@)
        },
        _ => None,
    }
}

/// Check that the CUDA backend can stream weights with this provider.
pub fn check_cuda_provider(kind: StorageProviderKind, linux: bool) -> (r: Result<(), FellmError>)
    ensures
        match cuda_provider_refusal(kind, linux) {
            Some(m) => r matches Err(FellmError::Other(e)) && e@ == m,
            None => r is Ok,
        },
{
    match kind {
        StorageProviderKind::IoUring => Err(FellmError::other("io_uring was selected without an operational provider")),
        StorageProviderKind::Gds => Err(FellmError::other("GDS was selected without an operational provider")),
        StorageProviderKind::Direct => if linux {
            Ok(())
        } else {
            Err(FellmError::other("direct I/O provider requires Linux"))
        },
        _ => Ok(()),
    }
}

/// Whether an object holds one of the selected weights.
pub open spec fn has_selected(o: StorageObject, selected: Seq<u64>) -> bool {
    exists|k: int| 0 <= k < o.members@.len() && selected.contains(#[trigger] o.members@[k].weight)
}

/// The objects that hold a selected weight, in catalog order.
pub open spec fn selected_catalog(objects: Seq<StorageObject>, selected: Seq<u64>) -> Seq<StorageObject>
    decreases objects.len(),
{
    if objects.len() == 0 {
        Seq::empty()
    } else {
        let r = selected_catalog(objects.drop_last(), selected);
        if has_selected(objects.last(), selected) {
            r.push(objects.last())
        } else {
            r
        }
    }
}

/// The object of a selected weight: the last selected object listing it.
pub open spec fn object_of_selected(objects: Seq<StorageObject>, selected: Seq<u64>, w: u64) -> Option<u64> {
    if selected.contains(w) {
        crate::ring::object_of(selected_catalog(objects, selected), w)
    } else {
        None
    }
}

/// The slot of an object among `n` slots.
pub open spec fn slot_index(o: u64, n: nat) -> int {
    ((o as usize) as int) % (n as int)
}

/// The storage-object scheduler of the CUDA backend.
pub struct StorageScheduler {
    objects: Vec<StorageObject>,
    weights: HashMap<u64, u64>,
    entries: HashMap<u64, usize>,
    pending: Vec<u64>,
    resident: Vec<Option<u64>>,
    states: HashMap<u64, SlotState>,
    required_requests: u64,
    resident_hits: u64,
    prefetch_hits: u64,
    prefetch_misses: u64,
    useful_bytes: u64,
    wait_nanos: u64,
}

/// The first selected object whose extent is larger than a staging slot.
pub open spec fn oversized(objects: Seq<StorageObject>, selected: Seq<u64>, buffer_bytes: nat) -> bool {
    exists|i: int| 0 <= i < objects.len() && has_selected(#[trigger] objects[i], selected) && objects[i].len > buffer_bytes
}

fn slice_contains(v: &[u64], x: u64) -> (b: bool)
    ensures
        b == v@.contains(x),
{
    let mut i: usize = 0;
    while i < v.len()
        invariant
            i <= v@.len(),
            forall|k: int| 0 <= k < i ==> v@[k] != x,
        decreases v@.len() - i,
    {
        if v[i] == x {
            return true;
        }
        i = i + 1;
    }
    false
}

fn holds_selected(o: &StorageObject, selected: &[u64]) -> (b: bool)
    ensures
        b == has_selected(*o, selected@),
{
    let mut k: usize = 0;
    while k < o.members.len()
        invariant
            k <= o.members@.len(),
            forall|j: int| 0 <= j < k ==> !selected@.contains(#[trigger] o.members@[j].weight),
        decreases o.members@.len() - k,
    {
        if slice_contains(selected, o.members[k].weight) {
            return true;
        }
        k = k + 1;
    }
    false
}

/// Message for an object larger than a staging slot.
#[verifier::external_body]
fn oversized_message(id: u64, len: u64, buffer_bytes: usize) -> String {
    format!("storage object {} exceeds bounded staging slot: {} > {}", id, len, buffer_bytes)
}

/// The weight-to-object map of the selected weights.
fn selected_weight_map(objects: &Vec<StorageObject>, selected: &[u64]) -> (m: HashMap<u64, u64>)
    ensures
        forall|w: u64| #[trigger] m@.contains_key(w) <==> selected@.contains(w) && crate::ring::object_of(objects@, w) is Some,
        forall|w: u64| m@.contains_key(w) ==> Some(#[trigger] m@[w]) == crate::ring::object_of(objects@, w),
{
    let mut m: HashMap<u64, u64> = HashMap::new();
    let mut i: usize = 0;
    assert(objects@.take(0) =~= Seq::<StorageObject>::empty());
    while i < objects.len()
        invariant
            i <= objects@.len(),
            forall|w: u64| #[trigger] m@.contains_key(w) <==> selected@.contains(w) && crate::ring::object_of(
                objects@.take(i as int),
                w,
            ) is Some,
            forall|w: u64| m@.contains_key(w) ==> Some(#[trigger] m@[w]) == crate::ring::object_of(objects@.take(i as int), w),
        decreases objects@.len() - i,
    {
        let o = &objects[i];
        let mut j: usize = 0;
        while j < o.members.len()
            invariant
                i < objects@.len(),
                *o == objects@[i as int],
                j <= o.members@.len(),
                forall|w: u64| #[trigger] m@.contains_key(w) <==> selected@.contains(w)
                    && crate::ring::object_of_partial(objects@, i as int, j as int, w) is Some,
                forall|w: u64| m@.contains_key(w) ==> Some(#[trigger] m@[w]) == crate::ring::object_of_partial(
                    objects@,
                    i as int,
                    j as int,
                    w,
                ),
            decreases o.members@.len() - j,
        {
            let w = o.members[j].weight;
            let sel = slice_contains(selected, w);
            if sel {
                m.insert(w, o.id);
            }
            proof {
                assert forall|x: u64| #[trigger] m@.contains_key(x) <==> selected@.contains(x)
                    && crate::ring::object_of_partial(objects@, i as int, j + 1, x) is Some by {
                    if x == w {
                        assert(objects@[i as int].members@[j as int].weight == x);
                    } else if exists|k: int| 0 <= k < j + 1 && (#[trigger] objects@[i as int].members@[k]).weight == x {
                        let k = choose|k: int| 0 <= k < j + 1 && (#[trigger] objects@[i as int].members@[k]).weight == x;
                        assert(k < j);
                    }
                }
                assert forall|x: u64| m@.contains_key(x) implies Some(#[trigger] m@[x])
                    == crate::ring::object_of_partial(objects@, i as int, j + 1, x) by {
                    if x == w {
                        assert(objects@[i as int].members@[j as int].weight == x);
                    } else if exists|k: int| 0 <= k < j + 1 && (#[trigger] objects@[i as int].members@[k]).weight == x {
                        let k = choose|k: int| 0 <= k < j + 1 && (#[trigger] objects@[i as int].members@[k]).weight == x;
                        assert(k < j);
                    }
                }
            }
            j = j + 1;
        }
        proof {
            let t = objects@.take(i + 1);
            assert(t.drop_last() =~= objects@.take(i as int));
            assert(t.last() == objects@[i as int]);
            assert forall|w: u64| crate::ring::object_of_partial(objects@, i as int, j as int, w)
                == #[trigger] crate::ring::object_of(t, w) by {}
        }
        i = i + 1;
    }
    assert(objects@.take(objects@.len() as int) =~= objects@);
    m
}

impl StorageScheduler {
    /// The selected storage objects, in catalog order.
    pub closed spec fn catalog(&self) -> Seq<StorageObject> {
        self.objects@
    }

    /// The object of each streamed weight.
    pub closed spec fn weight_map(&self) -> Map<u64, u64> {
        self.weights@
    }

    /// The device slots.
    pub closed spec fn slots(&self) -> Seq<Option<u64>> {
        self.resident@
    }

    /// The state of each object.
    pub closed spec fn object_states(&self) -> Map<u64, SlotState> {
        self.states@
    }

    /// Objects whose read is queued.
    pub closed spec fn in_flight(&self) -> Seq<u64> {
        self.pending@
    }

    /// Required requests, resident hits, prefetch hits, prefetch misses, useful bytes
    /// uploaded, and time spent waiting for reads.
    pub closed spec fn counters(&self) -> (u64, u64, u64, u64, u64, u64) {
        (
            self.required_requests,
            self.resident_hits,
            self.prefetch_hits,
            self.prefetch_misses,
            self.useful_bytes,
            self.wait_nanos,
        )
    }

    /// The maps agree with the catalog; every catalog object has a state; queued reads are
    /// of catalog objects, each once; there is a slot; and an object in a slot is the one
    /// its id maps to, and in use.
    pub closed spec fn wf(&self) -> bool {
        &&& forall|w: u64| self.weights@.contains_key(w) ==> Some(#[trigger] self.weights@[w]) == crate::ring::object_of(
            self.objects@,
            w,
        )
        &&& forall|id: u64| #[trigger] self.entries@.contains_key(id) <==> crate::ring::entry_of(self.objects@, id) is Some
        &&& forall|id: u64| self.entries@.contains_key(id) ==> (#[trigger] self.entries@[id] as int) < self.objects@.len()
            && Some(self.objects@[self.entries@[id] as int]) == crate::ring::entry_of(self.objects@, id)
        &&& forall|id: u64| #[trigger] self.states@.contains_key(id) <== crate::ring::entry_of(self.objects@, id) is Some
        &&& self.pending@.no_duplicates()
        &&& forall|k: int| 0 <= k < self.pending@.len() ==> crate::ring::entry_of(self.objects@, #[trigger] self.pending@[k]) is Some
        &&& self.resident@.len() >= 1
        &&& forall|s: int| 0 <= s < self.resident@.len() && #[trigger] self.resident@[s] is Some ==> {
            let o = self.resident@[s].unwrap();
            &&& slot_index(o, self.resident@.len()) == s
            &&& self.states@.contains_key(o) && self.states@[o] == SlotState::InUse
        }
    }

    /// The scheduler for streaming the `selected` weights from this catalog through
    /// `max(buffer_count, 1)` device slots of `buffer_bytes` staging bytes each: the
    /// objects that hold a selected weight, every one of them empty. No selected weights
    /// means no scheduler; a selected object larger than a staging slot is refused.
    pub fn configure(objects: Vec<StorageObject>, selected: &[u64], buffer_count: usize, buffer_bytes: usize) -> (r:
        Result<Option<StorageScheduler>, FellmError>)
        ensures
            selected@.len() == 0 ==> r matches Ok(None),
            selected@.len() > 0 && oversized(objects@, selected@, buffer_bytes as nat) ==> r matches Err(
                FellmError::Other(_),
            ),
            selected@.len() > 0 && !oversized(objects@, selected@, buffer_bytes as nat) ==> (r matches Ok(Some(s)) && {
                &&& s.wf()
                &&& s.catalog() == selected_catalog(objects@, selected@)
                &&& forall|w: u64| #[trigger] s.weight_map().contains_key(w) <==> object_of_selected(
                    objects@,
                    selected@,
                    w,
                ) is Some
                &&& forall|w: u64| s.weight_map().contains_key(w) ==> Some(#[trigger] s.weight_map()[w])
                    == object_of_selected(objects@, selected@, w)
                &&& s.slots() == Seq::new(
                    (if buffer_count < 1 { 1 } else { buffer_count }) as nat,
                    |k: int| None::<u64>,
                )
                &&& forall|id: u64| #[trigger] s.object_states().contains_key(id) ==> s.object_states()[id]
                    == SlotState::Empty
                &&& s.in_flight() == Seq::<u64>::empty()
                &&& s.counters() == (0u64, 0u64, 0u64, 0u64, 0u64, 0u64)
            }),
    {
        if selected.len() == 0 {
            return Ok(None);
        }
        let ghost all = objects@;
        let total = objects.len();
        let mut rest = objects;
        let mut chosen: Vec<StorageObject> = Vec::new();
        let mut i: usize = 0;
        assert(all.take(0) =~= Seq::<StorageObject>::empty());
        assert(all.skip(0) =~= all);
        while rest.len() > 0
            invariant
                i <= all.len(),
                total == all.len(),
                all == objects@,
                rest@ == all.skip(i as int),
                chosen@ == selected_catalog(all.take(i as int), selected@),
                forall|k: int| 0 <= k < i ==> !(has_selected(#[trigger] all[k], selected@) && all[k].len > buffer_bytes),
            decreases rest@.len(),
        {
            let o = rest.remove(0);
            proof {
                assert(all.take(i + 1).drop_last() =~= all.take(i as int));
                assert(all.take(i + 1).last() == all[i as int]);
                assert(o == all[i as int]);
                assert(rest@ =~= all.skip(i + 1));
            }
            if holds_selected(&o, selected) {
                if o.len > buffer_bytes as u64 {
                    assert(has_selected(all[i as int], selected@) && all[i as int].len > buffer_bytes);
                    assert(oversized(objects@, selected@, buffer_bytes as nat));
                    return Err(FellmError::Other(oversized_message(o.id, o.len, buffer_bytes)));
                }
                chosen.push(o);
            }
            i = i + 1;
        }
        assert(i == all.len());
        assert(all.take(all.len() as int) =~= all);
        let weights = selected_weight_map(&chosen, selected);
        let entries = crate::ring::entry_index_map(chosen.as_slice());
        let mut states: HashMap<u64, SlotState> = HashMap::new();
        let mut k: usize = 0;
        while k < chosen.len()
            invariant
                k <= chosen@.len(),
                forall|id: u64| #[trigger] states@.contains_key(id) ==> states@[id] == SlotState::Empty,
                forall|j: int| 0 <= j < k ==> states@.contains_key(#[trigger] chosen@[j].id),
            decreases chosen@.len() - k,
        {
            states.insert(chosen[k].id, SlotState::Empty);
            k = k + 1;
        }
        let n = if buffer_count < 1 { 1 } else { buffer_count };
        let mut resident: Vec<Option<u64>> = Vec::new();
        let mut j: usize = 0;
        while j < n
            invariant
                j <= n,
                resident@ == Seq::new(j as nat, |x: int| None::<u64>),
            decreases n - j,
        {
            resident.push(None);
            proof {
                assert(resident@ =~= Seq::new((j + 1) as nat, |x: int| None::<u64>));
            }
            j = j + 1;
        }
        let s = StorageScheduler {
            objects: chosen,
            weights,
            entries,
            pending: Vec::new(),
            resident,
            states,
            required_requests: 0,
            resident_hits: 0,
            prefetch_hits: 0,
            prefetch_misses: 0,
            useful_bytes: 0,
            wait_nanos: 0,
        };
        proof {
            assert forall|id: u64| crate::ring::entry_of(s.objects@, id) is Some implies #[trigger] s.states@.contains_key(id) by {
                lemma_entry_in(s.objects@, id);
            }
        }
        Ok(Some(s))
    }
}

proof fn lemma_entry_in(objects: Seq<StorageObject>, id: u64)
    requires
        crate::ring::entry_of(objects, id) is Some,
    ensures
        exists|j: int| 0 <= j < objects.len() && (#[trigger] objects[j]).id == id,
    decreases objects.len(),
{
    if objects.last().id == id {
        assert(objects[objects.len() - 1].id == id);
    } else {
        lemma_entry_in(objects.drop_last(), id);
        let j = choose|j: int| 0 <= j < objects.drop_last().len() && (#[trigger] objects.drop_last()[j]).id == id;
        assert(objects[j] == objects.drop_last()[j]);
    }
}

/// What the caller does next for a weight-group prefetch.
#[derive(Debug)]
pub enum SchedStep {
    /// Hand the group's RAM-backed weights to the device weight cache under this resident
    /// object's identity.
    UploadDirect(u64),
    /// Queue a read of the first `len` bytes of this object's extent.
    QueueRead {
        /// The object.
        object: u64,
        /// Its extent length.
        len: u64,
    },
    /// Wait for this object's read.
    AwaitRead(u64),
    /// Upload this object's members from the finished read, with the group's RAM-backed
    /// weights when `with_direct`, under the object's identity.
    Upload {
        /// The object.
        object: u64,
        /// Whether the group's RAM-backed weights go with it.
        with_direct: bool,
    },
    /// Upload the group's RAM-backed weights under the group's own identity.
    UploadGroup(u64),
    /// The prefetch is complete.
    Done,
    /// The prefetch failed.
    Failed(FellmError),
}

/// What came of the caller's last step.
#[derive(Debug)]
pub enum SchedOutcome {
    /// The step was carried out (or, for the first call, nothing was asked).
    Carried,
    /// The awaited read finished after `wait_nanos` of waiting.
    Finished {
        /// Time spent waiting.
        wait_nanos: u64,
    },
    /// The step failed.
    Failed(FellmError),
}

/// Where a weight-group prefetch stands.
#[derive(Debug, Clone, Copy, PartialEq, Eq, Structural)]
pub enum SchedPhase {
    /// Looking for the next thing to do.
    Scan,
    /// RAM-backed weights are being handed over with a resident object.
    Direct(u64),
    /// A read is being queued.
    Queuing(u64),
    /// A read is awaited.
    Awaiting(u64),
    /// An object is being uploaded.
    Uploading(u64),
    /// The group's RAM-backed weights are being uploaded.
    Grouping,
    /// Complete or failed.
    Over,
}

/// A weight-group prefetch in progress.
pub struct SchedRun {
    group_id: u64,
    objects: Vec<u64>,
    direct: bool,
    next: usize,
    required: bool,
    phase: SchedPhase,
}

impl SchedRun {
    /// The group's storage objects, in first-seen order.
    pub closed spec fn group(&self) -> Seq<u64> {
        self.objects@
    }

    /// The group id.
    pub closed spec fn spec_group_id(&self) -> u64 {
        self.group_id
    }

    /// Whether some of the group's RAM-backed weights are still to be handed over.
    pub closed spec fn spec_direct(&self) -> bool {
        self.direct
    }

    /// How many of the group's objects are dealt with.
    pub closed spec fn done_count(&self) -> nat {
        self.next as nat
    }

    /// Whether the group is needed now.
    pub closed spec fn spec_required(&self) -> bool {
        self.required
    }

    /// Where the prefetch stands.
    pub closed spec fn spec_phase(&self) -> SchedPhase {
        self.phase
    }

    /// Whether the prefetch is complete or failed.
    pub fn is_over(&self) -> (b: bool)
        ensures
            b == (self.spec_phase() == SchedPhase::Over),
    {
        self.phase == SchedPhase::Over
    }
}

/// Object `k` of a group is on the device in its slot, or a later object of the group
/// (among the first `n`) took that slot.
pub open spec fn kept_or_displaced(slots: Seq<Option<u64>>, g: Seq<u64>, k: int, n: int) -> bool {
    ||| slots[slot_index(g[k], slots.len())] == Some(g[k])
    ||| exists|j: int| k < j < n && slot_index(#[trigger] g[j], slots.len()) == slot_index(g[k], slots.len())
}

/// The object is in its slot, or its read is queued.
pub open spec fn resident_or_queued(s: &StorageScheduler, o: u64) -> bool {
    s.slots()[slot_index(o, s.slots().len())] == Some(o) || s.in_flight().contains(o)
}

/// The prefetch and the scheduler agree: each dealt-with object of a needed group is on
/// the device in its slot or was displaced by a later one, and each phase holds what it
/// was entered with.
pub open spec fn sched_run_wf(s: &StorageScheduler, run: &SchedRun) -> bool {
    let g = run.group();
    let n = run.done_count();
    &&& g.no_duplicates()
    &&& n <= g.len()
    &&& forall|k: int| 0 <= k < g.len() ==> crate::ring::entry_of(s.catalog(), #[trigger] g[k]) is Some
    &&& run.spec_required() && run.spec_phase() != SchedPhase::Over ==> forall|k: int| 0 <= k < n ==> #[trigger] kept_or_displaced(
        s.slots(),
        g,
        k,
        n as int,
    )
    &&& !run.spec_required() ==> forall|k: int| 0 <= k < n ==> #[trigger] resident_or_queued(s, g[k])
    &&& match run.spec_phase() {
        SchedPhase::Scan | SchedPhase::Over => true,
        SchedPhase::Grouping => n == g.len() && run.spec_required(),
        SchedPhase::Direct(o) => n < g.len() && o == g[n as int] && s.slots()[slot_index(o, s.slots().len())] == Some(o),
        SchedPhase::Queuing(o) => n < g.len() && o == g[n as int] && !s.in_flight().contains(o)
            && s.slots()[slot_index(o, s.slots().len())] != Some(o),
        SchedPhase::Awaiting(o) | SchedPhase::Uploading(o) => n < g.len() && o == g[n as int] && run.spec_required()
            && !s.in_flight().contains(o) && s.slots()[slot_index(o, s.slots().len())] != Some(o),
    }
}

/// The outcome fits what the last step asked for.
pub open spec fn sched_outcome_fits(phase: SchedPhase, outcome: SchedOutcome) -> bool {
    match phase {
        SchedPhase::Scan => outcome is Carried,
        SchedPhase::Awaiting(_) => outcome is Finished || outcome is Failed,
        SchedPhase::Over => false,
        _ => outcome is Carried || outcome is Failed,
    }
}

/// Where a scan of a group stops.
#[derive(Debug, Clone, Copy, PartialEq, Eq, Structural)]
pub enum SchedStop {
    /// Every object is dealt with, and nothing is left to upload.
    Done,
    /// Every object is dealt with; the group's RAM-backed weights go up on their own.
    Group,
    /// A resident object takes the group's RAM-backed weights with it.
    Direct(u64),
    /// A read of an object, with its extent length, is to be queued.
    Queue(u64, u64),
    /// A queued read of a needed object is to be awaited.
    Await(u64),
    /// An object has no catalog entry.
    Missing,
}

/// Where a scan of the group `g` from index `from` stops, at which index, and how many
/// resident objects it passed (the one it stops at included). An object is resident when
/// it is in its slot; a resident object is passed over unless RAM-backed weights are still
/// to go, and so is an object whose read is queued when the group is not needed now.
pub open spec fn sched_scan(
    slots: Seq<Option<u64>>,
    pending: Seq<u64>,
    catalog: Seq<StorageObject>,
    g: Seq<u64>,
    required: bool,
    direct: bool,
    from: int,
) -> (int, SchedStop, nat)
    decreases g.len() - from,
{
    if from < 0 || from >= g.len() {
        (from, if required && direct { SchedStop::Group } else { SchedStop::Done }, 0)
    } else {
        let o = g[from];
        if slots[slot_index(o, slots.len())] == Some(o) {
            if direct {
                (from, SchedStop::Direct(o), 1)
            } else {
                let r = sched_scan(slots, pending, catalog, g, required, direct, from + 1);
                (r.0, r.1, r.2 + 1)
            }
        } else if !pending.contains(o) {
            match crate::ring::entry_of(catalog, o) {
                None => (from, SchedStop::Missing, 0),
                Some(e) => (from, SchedStop::Queue(o, e.len), 0),
            }
        } else if required {
            (from, SchedStop::Await(o), 0)
        } else {
            sched_scan(slots, pending, catalog, g, required, direct, from + 1)
        }
    }
}

/// `a + b` modulo 2^64, as `wrapping_add` computes it.
pub open spec fn wrap_add(a: u64, b: nat) -> u64 {
    ((a + b) % 0x1_0000_0000_0000_0000) as u64
}

/// The counters after a scan that stopped at `r`: a needed group counts each resident
/// object it passed as a request and a resident hit, and an awaited read as a request and
/// a prefetch hit.
pub open spec fn scan_counters(c: (u64, u64, u64, u64, u64, u64), r: (int, SchedStop, nat), required: bool) -> (
    u64,
    u64,
    u64,
    u64,
    u64,
    u64,
) {
    let h: nat = if required { r.2 } else { 0 };
    let a: nat = if r.1 is Await { 1 } else { 0 };
    (wrap_add(c.0, h + a), wrap_add(c.1, h), wrap_add(c.2, a), c.3, c.4, c.5)
}

/// The queued reads after a scan that stopped at `stop`: an awaited read leaves the queue.
pub open spec fn scan_in_flight(pending: Seq<u64>, stop: SchedStop) -> Seq<u64> {
    match stop {
        SchedStop::Await(o) => without(pending, o),
        _ => pending,
    }
}

/// The step a scan stop asks for, and the index the run stands at.
pub open spec fn sched_stop_matches(r: (int, SchedStop, nat), step: SchedStep, next: nat, group_id: u64) -> bool {
    &&& next == r.0
    &&& match r.1 {
        SchedStop::Done => step is Done,
        SchedStop::Group => step == SchedStep::UploadGroup(group_id),
        SchedStop::Direct(o) => step == SchedStep::UploadDirect(o),
        SchedStop::Queue(o, l) => step == (SchedStep::QueueRead { object: o, len: l }),
        SchedStop::Await(o) => step == SchedStep::AwaitRead(o),
        SchedStop::Missing => step matches SchedStep::Failed(FellmError::Other(m)) && m@
            == "storage object missing from catalog"@,
    }
}

/// A scan from `from` over these slots, queued reads and counters asks for `step`, leaves
/// the run at `next`, and gives the counters `c2` and queued reads `pending2`.
pub open spec fn scan_step(
    slots: Seq<Option<u64>>,
    pending: Seq<u64>,
    catalog: Seq<StorageObject>,
    g: Seq<u64>,
    required: bool,
    direct: bool,
    group_id: u64,
    from: int,
    c: (u64, u64, u64, u64, u64, u64),
    step: SchedStep,
    next: nat,
    c2: (u64, u64, u64, u64, u64, u64),
    pending2: Seq<u64>,
) -> bool {
    let r = sched_scan(slots, pending, catalog, g, required, direct, from);
    &&& sched_stop_matches(r, step, next, group_id)
    &&& c2 == scan_counters(c, r, required)
    &&& pending2 == scan_in_flight(pending, r.1)
}

proof fn lemma_wrap_add(a: u64, h: nat, y: u64)
    ensures
        wrap_add(a, 0) == a,
        wrap_add(wrap_add(a, h), y as nat) == wrap_add(a, h + y as nat),
        wrap_add(a, y as nat) == (if a + y > u64::MAX {
            (a + y - 0x1_0000_0000_0000_0000) as u64
        } else {
            (a + y) as u64
        }),
{
    let m: int = 0x1_0000_0000_0000_0000;
    vstd::arithmetic::div_mod::lemma_small_mod(a as nat, m as nat);
    vstd::arithmetic::div_mod::lemma_small_mod(y as nat, m as nat);
    vstd::arithmetic::div_mod::lemma_add_mod_noop(a + h, y as int, m);
    if a + y >= m {
        vstd::arithmetic::div_mod::lemma_mod_sub_multiples_vanish((a + y) as int, m);
        vstd::arithmetic::div_mod::lemma_small_mod((a + y - m) as nat, m as nat);
    } else {
        vstd::arithmetic::div_mod::lemma_small_mod((a + y) as nat, m as nat);
    }
}

proof fn lemma_sched_scan_never_missing(
    slots: Seq<Option<u64>>,
    pending: Seq<u64>,
    catalog: Seq<StorageObject>,
    g: Seq<u64>,
    required: bool,
    direct: bool,
    from: int,
)
    requires
        forall|k: int| 0 <= k < g.len() ==> crate::ring::entry_of(catalog, #[trigger] g[k]) is Some,
    ensures
        !(sched_scan(slots, pending, catalog, g, required, direct, from).1 is Missing),
        (sched_scan(slots, pending, catalog, g, required, direct, from).1 is Done || sched_scan(
            slots,
            pending,
            catalog,
            g,
            required,
            direct,
            from,
        ).1 is Group) && 0 <= from <= g.len() ==> sched_scan(slots, pending, catalog, g, required, direct, from).0
            == g.len(),
    decreases g.len() - from,
{
    if 0 <= from < g.len() {
        lemma_sched_scan_never_missing(slots, pending, catalog, g, required, direct, from + 1);
        assert(crate::ring::entry_of(catalog, g[from]) is Some);
    }
}

/// The storage objects a group of weights needs, in first-seen order, each once.
pub open spec fn sched_group(weights: Map<u64, u64>, ws: Seq<u64>) -> Seq<u64>
    decreases ws.len(),
{
    if ws.len() == 0 {
        Seq::empty()
    } else {
        let g = sched_group(weights, ws.drop_last());
        if weights.contains_key(ws.last()) {
            if g.contains(weights[ws.last()]) {
                g
            } else {
                g.push(weights[ws.last()])
            }
        } else {
            g
        }
    }
}

proof fn lemma_sched_group(weights: Map<u64, u64>, ws: Seq<u64>)
    ensures
        sched_group(weights, ws).no_duplicates(),
        forall|k: int| 0 <= k < sched_group(weights, ws).len() ==> exists|w: u64| #[trigger] weights.contains_key(w)
            && weights[w] == #[trigger] sched_group(weights, ws)[k],
    decreases ws.len(),
{
    if ws.len() > 0 {
        lemma_sched_group(weights, ws.drop_last());
        let g = sched_group(weights, ws.drop_last());
        if weights.contains_key(ws.last()) && !g.contains(weights[ws.last()]) {
            lemma_no_dup_push(g, weights[ws.last()]);
            let h = g.push(weights[ws.last()]);
            assert forall|k: int| 0 <= k < h.len() implies exists|w: u64| #[trigger] weights.contains_key(w)
                && weights[w] == #[trigger] h[k] by {
                if k < g.len() {
                    assert(h[k] == g[k]);
                } else {
                    assert(weights.contains_key(ws.last()));
                }
            }
        }
    }
}

impl StorageScheduler {
    /// Start prefetching the storage objects of a group of weights (by logical id). With
    /// streaming off there is nothing to do. Weights in no storage object are RAM-backed;
    /// they are handed to the device along with the group.
    pub fn begin_prefetch(&self, group_id: u64, weights: &[u64], required: bool, streaming: bool) -> (run: SchedRun)
        requires
            self.wf(),
        ensures
            sched_run_wf(self, &run),
            run.spec_phase() == SchedPhase::Scan,
            run.done_count() == 0,
            run.spec_required() == required,
            run.spec_group_id() == group_id,
            run.group() == if streaming { sched_group(self.weight_map(), weights@) } else { Seq::<u64>::empty() },
            run.spec_direct() == (streaming && exists|k: int| 0 <= k < weights@.len() && !self.weight_map().contains_key(
                #[trigger] weights@[k],
            )),
    {
        if !streaming {
            return SchedRun { group_id, objects: Vec::new(), direct: false, next: 0, required, phase: SchedPhase::Scan };
        }
        let mut g: Vec<u64> = Vec::new();
        let mut direct = false;
        let mut i: usize = 0;
        assert(weights@.take(0) =~= Seq::<u64>::empty());
        while i < weights.len()
            invariant
                self.wf(),
                i <= weights@.len(),
                g@ == sched_group(self.weights@, weights@.take(i as int)),
                direct == exists|k: int| 0 <= k < i && !self.weights@.contains_key(#[trigger] weights@[k]),
            decreases weights@.len() - i,
        {
            proof {
                assert(weights@.take(i + 1).drop_last() =~= weights@.take(i as int));
                assert(weights@.take(i + 1).last() == weights@[i as int]);
            }
            match self.weights.get(&weights[i]) {
                Some(o) => {
                    let o = *o;
                    if index_in(&g, o).is_none() {
                        g.push(o);
                    }
                },
                None => {
                    direct = true;
                },
            }
            i = i + 1;
        }
        assert(weights@.take(weights@.len() as int) =~= weights@);
        proof {
            lemma_sched_group(self.weights@, weights@);
            assert forall|k: int| 0 <= k < g@.len() implies crate::ring::entry_of(self.objects@, #[trigger] g@[k]) is Some by {
                assert(g@[k] == sched_group(self.weights@, weights@)[k]);
                let w = choose|w: u64| #[trigger] self.weights@.contains_key(w) && self.weights@[w] == sched_group(
                    self.weights@,
                    weights@,
                )[k];
                lemma_object_has_entry(self.objects@, w);
            }
        }
        SchedRun { group_id, objects: g, direct, next: 0, required, phase: SchedPhase::Scan }
    }
}

/// An object in a slot is the one its id maps to, and in use.
proof fn lemma_slot_of_resident(s: &StorageScheduler, slot: int)
    requires
        s.wf(),
        0 <= slot < s.slots().len(),
        s.slots()[slot] is Some,
    ensures
        slot_index(s.slots()[slot].unwrap(), s.slots().len()) == slot,
        s.object_states().contains_key(s.slots()[slot].unwrap()),
        s.object_states()[s.slots()[slot].unwrap()] == SlotState::InUse,
{
}

impl StorageScheduler {
    fn is_published(&self, o: u64) -> (b: bool)
        ensures
            b == (self.states@.contains_key(o) && published(self.states@[o])),
    {
        match self.states.get(&o) {
            Some(st) => {
                let st = *st;
                st == SlotState::DeviceReady || st == SlotState::InUse || st == SlotState::Evictable
            },
            None => false,
        }
    }

    fn entry_len(&self, o: u64) -> (r: Option<(u64, u64)>)
        requires
            self.wf(),
        ensures
            match crate::ring::entry_of(self.catalog(), o) {
                Some(e) => r == Some((e.len, e.useful_bytes)),
                None => r is None,
            },
    {
        match self.entries.get(&o) {
            Some(i) => Some((self.objects[*i].len, self.objects[*i].useful_bytes)),
            None => None,
        }
    }
}

/// The dealt-with objects of a group stay kept or displaced as more are dealt with.
proof fn lemma_kept_grows(slots: Seq<Option<u64>>, g: Seq<u64>, n: int)
    requires
        forall|k: int| 0 <= k < n ==> #[trigger] kept_or_displaced(slots, g, k, n),
    ensures
        forall|k: int| 0 <= k < n ==> #[trigger] kept_or_displaced(slots, g, k, n + 1),
{
    assert forall|k: int| 0 <= k < n implies #[trigger] kept_or_displaced(slots, g, k, n + 1) by {
        assert(kept_or_displaced(slots, g, k, n));
        if slots[slot_index(g[k], slots.len())] != Some(g[k]) {
            let j = choose|j: int| k < j < n && slot_index(#[trigger] g[j], slots.len()) == slot_index(g[k], slots.len());
            assert(k < j < n + 1 && slot_index(g[j], slots.len()) == slot_index(g[k], slots.len()));
        }
    }
}

impl StorageScheduler {
    fn begin_wait(&mut self, run: &mut SchedRun, o: u64, was_pending: bool) -> (step: SchedStep)
        requires
            old(self).wf(),
            sched_run_wf(&*old(self), &*old(run)),
            old(run).spec_phase() == SchedPhase::Scan,
            old(run).spec_required(),
            old(run).done_count() < old(run).group().len(),
            o == old(run).group()[old(run).done_count() as int],
            old(self).in_flight().contains(o),
            old(self).slots()[slot_index(o, old(self).slots().len())] != Some(o),
        ensures
            final(self).wf(),
            sched_run_wf(&*final(self), &*final(run)),
            final(run).group() == old(run).group(),
            final(run).spec_required() == old(run).spec_required(),
            final(run).spec_group_id() == old(run).spec_group_id(),
            final(run).spec_phase() == SchedPhase::Awaiting(o),
            final(self).catalog() == old(self).catalog(),
            final(self).slots() == old(self).slots(),
            step == SchedStep::AwaitRead(o),
            final(run).done_count() == old(run).done_count(),
            final(run).spec_direct() == old(run).spec_direct(),
            final(self).in_flight() == without(old(self).in_flight(), o),
            ({
                let c = old(self).counters();
                final(self).counters() == (
                    wrap_add(c.0, 1),
                    c.1,
                    if was_pending { wrap_add(c.2, 1) } else { c.2 },
                    if was_pending { c.3 } else { wrap_add(c.3, 1) },
                    c.4,
                    c.5,
                )
            }),
    {
        proof {
            lemma_wrap_add(self.required_requests, 0, 1);
            lemma_wrap_add(self.prefetch_hits, 0, 1);
            lemma_wrap_add(self.prefetch_misses, 0, 1);
        }
        self.required_requests = self.required_requests.wrapping_add(1);
        if was_pending {
            self.prefetch_hits = self.prefetch_hits.wrapping_add(1);
        } else {
            self.prefetch_misses = self.prefetch_misses.wrapping_add(1);
        }
        let idx = index_in(&self.pending, o);
        proof {
            lemma_no_dup_remove(self.pending@, idx.unwrap() as int);
            lemma_without(self.pending@, idx.unwrap() as int);
        }
        self.pending.remove(idx.unwrap());
        self.states.insert(o, SlotState::Reading);
        proof {
            assert forall|sl: int| 0 <= sl < self.resident@.len() && #[trigger] self.resident@[sl] is Some implies {
                let x = self.resident@[sl].unwrap();
                &&& slot_index(x, self.resident@.len()) == sl
                &&& self.states@.contains_key(x) && self.states@[x] == SlotState::InUse
            } by {
                let x = self.resident@[sl].unwrap();
                assert(old(self).states@.contains_key(x) && slot_index(x, self.resident@.len()) == sl);
                assert(x != o);
            }
        }
        run.phase = SchedPhase::Awaiting(o);
        SchedStep::AwaitRead(o)
    }

    fn scan(&mut self, run: &mut SchedRun) -> (step: SchedStep)
        requires
            old(self).wf(),
            sched_run_wf(&*old(self), &*old(run)),
            old(run).spec_phase() == SchedPhase::Scan,
        ensures
            final(self).wf(),
            sched_run_wf(&*final(self), &*final(run)),
            final(run).group() == old(run).group(),
            final(run).spec_required() == old(run).spec_required(),
            final(run).spec_group_id() == old(run).spec_group_id(),
            final(self).catalog() == old(self).catalog(),
            final(self).slots() == old(self).slots(),
            step is Done ==> final(run).spec_phase() == SchedPhase::Over && (old(run).spec_required() ==> forall|k: int|
                0 <= k < old(run).group().len() ==> #[trigger] kept_or_displaced(
                final(self).slots(),
                old(run).group(),
                k,
                old(run).group().len() as int,
            )),
            step is Failed ==> final(run).spec_phase() == SchedPhase::Over,
            step matches SchedStep::UploadDirect(o) ==> final(run).spec_phase() == SchedPhase::Direct(o),
            step matches SchedStep::QueueRead { object, len } ==> final(run).spec_phase() == SchedPhase::Queuing(object)
                && (crate::ring::entry_of(final(self).catalog(), object) matches Some(e) && e.len == len),
            step matches SchedStep::AwaitRead(o) ==> final(run).spec_phase() == SchedPhase::Awaiting(o),
            step matches SchedStep::UploadGroup(g) ==> final(run).spec_phase() == SchedPhase::Grouping
                && g == old(run).spec_group_id(),
            !(step is Upload),
            final(run).spec_direct() == old(run).spec_direct(),
            step is Done ==> final(run).done_count() == old(run).group().len(),
            !(step is Failed),
            scan_step(
                old(self).slots(),
                old(self).in_flight(),
                old(self).catalog(),
                old(run).group(),
                old(run).spec_required(),
                old(run).spec_direct(),
                old(run).spec_group_id(),
                old(run).done_count() as int,
                old(self).counters(),
                step,
                final(run).done_count(),
                final(self).counters(),
                final(self).in_flight(),
            ),
    {
        let n = self.resident.len();
        let ghost c0 = self.counters();
        let ghost r0 = sched_scan(
            self.resident@,
            self.pending@,
            self.objects@,
            run.objects@,
            run.required,
            run.direct,
            run.next as int,
        );
        let ghost mut h: nat = 0;
        proof {
            lemma_sched_scan_never_missing(
                self.resident@,
                self.pending@,
                self.objects@,
                run.objects@,
                run.required,
                run.direct,
                run.next as int,
            );
            lemma_wrap_add(c0.0, 0, 0);
            lemma_wrap_add(c0.1, 0, 0);
        }
        while run.next < run.objects.len()
            invariant
                self.wf(),
                sched_run_wf(&*self, &*run),
                run.phase == SchedPhase::Scan,
                run.objects@ == old(run).objects@,
                run.required == old(run).required,
                run.direct == old(run).direct,
                run.group_id == old(run).group_id,
                n == self.resident@.len(),
                self.objects@ == old(self).objects@,
                self.resident@ == old(self).resident@,
                self.pending@ == old(self).pending@,
                c0 == old(self).counters(),
                self.required_requests == wrap_add(c0.0, if run.required { h } else { 0 }),
                self.resident_hits == wrap_add(c0.1, if run.required { h } else { 0 }),
                self.prefetch_hits == c0.2,
                self.prefetch_misses == c0.3,
                self.useful_bytes == c0.4,
                self.wait_nanos == c0.5,
                r0 == sched_scan(
                    old(self).resident@,
                    old(self).pending@,
                    old(self).objects@,
                    old(run).objects@,
                    old(run).required,
                    old(run).direct,
                    old(run).next as int,
                ),
                ({
                    let r = sched_scan(
                        self.resident@,
                        self.pending@,
                        self.objects@,
                        run.objects@,
                        run.required,
                        run.direct,
                        run.next as int,
                    );
                    r.0 == r0.0 && r.1 == r0.1 && r.2 + h == r0.2
                }),
                !(r0.1 is Missing),
            decreases run.objects@.len() - run.next,
        {
            let o = run.objects[run.next];
            let slot = (#[verifier::truncate] (o as usize)) % n;
            let here = match self.resident[slot] {
                Some(x) => x == o,
                None => false,
            };
            proof {
                if self.resident@[slot as int] == Some(o) {
                    lemma_slot_of_resident(&*self, slot as int);
                }
            }
            if here && self.is_published(o) {
                if run.required {
                    proof {
                        lemma_wrap_add(c0.0, h, 1);
                        lemma_wrap_add(c0.1, h, 1);
                    }
                    self.required_requests = self.required_requests.wrapping_add(1);
                    self.resident_hits = self.resident_hits.wrapping_add(1);
                }
                proof {
                    h = h + 1;
                }
                if run.direct {
                    run.phase = SchedPhase::Direct(o);
                    return SchedStep::UploadDirect(o);
                }
                proof {
                    if run.required {
                        lemma_kept_grows(self.resident@, run.objects@, run.next as int);
                        assert(kept_or_displaced(self.resident@, run.objects@, run.next as int, run.next + 1));
                    }
                }
                run.next = run.next + 1;
            } else {
                proof {
                    if self.resident@[slot as int] == Some(o) {
                        lemma_slot_of_resident(&*self, slot as int);
                    }
                }
                let was_pending = index_in(&self.pending, o).is_some();
                if !was_pending {
                    let len = match self.entry_len(o) {
                        Some((l, _)) => l,
                        None => {
                            run.phase = SchedPhase::Over;
                            return SchedStep::Failed(FellmError::other("storage object missing from catalog"));
                        },
                    };
                    run.phase = SchedPhase::Queuing(o);
                    return SchedStep::QueueRead { object: o, len };
                }
                if run.required {
                    proof {
                        lemma_wrap_add(c0.0, h, 1);
                        lemma_wrap_add(c0.2, 0, 1);
                    }
                    return self.begin_wait(run, o, true);
                }
                run.next = run.next + 1;
            }
        }
        if run.required && run.direct {
            run.phase = SchedPhase::Grouping;
            return SchedStep::UploadGroup(run.group_id);
        }
        run.phase = SchedPhase::Over;
        SchedStep::Done
    }
}

impl StorageScheduler {
    /// Carry a weight-group prefetch one step further, given what came of the caller's
    /// last step.
    ///
    /// Each object of the group, in order: when it is on the device in its slot, the
    /// group's RAM-backed weights (if any are still to go) are handed over with it.
    /// Otherwise its read is queued unless it already is; then, for a needed group, the read
    /// is awaited and the object uploaded (with the RAM-backed weights still to go), taking
    /// its slot, whose previous object becomes empty. A needed group whose RAM-backed weights
    /// did not go with any object uploads them last, under its own identity, which empties
    /// the group's slot. Needed objects are counted as resident hits, prefetch hits (read
    /// already queued) or misses.
    #[verifier::rlimit(40)]
    pub fn advance(&mut self, run: &mut SchedRun, outcome: SchedOutcome) -> (step: SchedStep)
        requires
            old(self).wf(),
            sched_run_wf(&*old(self), &*old(run)),
            sched_outcome_fits(old(run).spec_phase(), outcome),
        ensures
            final(self).wf(),
            sched_run_wf(&*final(self), &*final(run)),
            final(run).group() == old(run).group(),
            final(run).spec_required() == old(run).spec_required(),
            final(run).spec_group_id() == old(run).spec_group_id(),
            final(self).catalog() == old(self).catalog(),
            step is Done ==> final(run).spec_phase() == SchedPhase::Over && (old(run).spec_required() ==> forall|k: int|
                0 <= k < old(run).group().len() ==> #[trigger] kept_or_displaced(
                final(self).slots(),
                old(run).group(),
                k,
                old(run).group().len() as int,
            ) || slot_index(old(run).group()[k], final(self).slots().len()) == slot_index(
                old(run).spec_group_id(),
                final(self).slots().len(),
            )),
            step is Failed ==> final(run).spec_phase() == SchedPhase::Over,
            step matches SchedStep::UploadDirect(o) ==> final(run).spec_phase() == SchedPhase::Direct(o),
            step matches SchedStep::QueueRead { object, len } ==> final(run).spec_phase() == SchedPhase::Queuing(object)
                && (crate::ring::entry_of(final(self).catalog(), object) matches Some(e) && e.len == len),
            step matches SchedStep::AwaitRead(o) ==> final(run).spec_phase() == SchedPhase::Awaiting(o),
            step matches SchedStep::Upload { object, with_direct } ==> final(run).spec_phase() == SchedPhase::Uploading(
                object,
            ) && with_direct == old(run).spec_direct() && !final(run).spec_direct(),
            step matches SchedStep::UploadGroup(g) ==> final(run).spec_phase() == SchedPhase::Grouping
                && g == old(run).spec_group_id(),
            step is Failed ==> outcome is Failed,
            step is Done ==> final(run).done_count() == old(run).group().len(),
            step is Done && !old(run).spec_required() ==> forall|k: int| 0 <= k < old(run).group().len()
                ==> #[trigger] resident_or_queued(&*final(self), old(run).group()[k]),
            ({
                let c = old(self).counters();
                let g = old(run).group();
                let req = old(run).spec_required();
                let dir = old(run).spec_direct();
                let gid = old(run).spec_group_id();
                let n = old(run).done_count() as int;
                let slots = old(self).slots();
                let pend = old(self).in_flight();
                let cat = old(self).catalog();
                let c2 = final(self).counters();
                let pend2 = final(self).in_flight();
                let next = final(run).done_count();
                let failed_as_told = outcome matches SchedOutcome::Failed(e) && step == SchedStep::Failed(e) && c2 == c
                    && pend2 == pend && final(self).slots() == slots;
                match old(run).spec_phase() {
                    SchedPhase::Scan => final(self).slots() == slots && scan_step(
                        slots,
                        pend,
                        cat,
                        g,
                        req,
                        dir,
                        gid,
                        n,
                        c,
                        step,
                        next,
                        c2,
                        pend2,
                    ),
                    SchedPhase::Direct(o) => failed_as_told || (outcome is Carried && final(self).slots() == slots
                        && scan_step(slots, pend, cat, g, req, false, gid, n + 1, c, step, next, c2, pend2)),
                    SchedPhase::Queuing(o) => failed_as_told || (outcome is Carried && final(self).slots() == slots && if req {
                        &&& step == SchedStep::AwaitRead(o)
                        &&& next == n
                        &&& pend2 == pend
                        &&& c2 == (wrap_add(c.0, 1), c.1, c.2, wrap_add(c.3, 1), c.4, c.5)
                    } else {
                        scan_step(slots, pend.push(o), cat, g, req, dir, gid, n + 1, c, step, next, c2, pend2)
                    }),
                    SchedPhase::Awaiting(o) => failed_as_told || (outcome matches SchedOutcome::Finished { wait_nanos }
                        && crate::ring::entry_of(cat, o) matches Some(e) && step == (SchedStep::Upload {
                        object: o,
                        with_direct: dir,
                    }) && next == n && pend2 == pend && final(self).slots() == slots && c2 == (
                        c.0,
                        c.1,
                        c.2,
                        c.3,
                        wrap_add(c.4, e.useful_bytes as nat),
                        wrap_add(c.5, wait_nanos as nat),
                    )),
                    SchedPhase::Uploading(o) => failed_as_told || (outcome is Carried && final(self).slots()
                        == slots.update(slot_index(o, slots.len()), Some(o)) && scan_step(
                        slots.update(slot_index(o, slots.len()), Some(o)),
                        pend,
                        cat,
                        g,
                        req,
                        dir,
                        gid,
                        n + 1,
                        c,
                        step,
                        next,
                        c2,
                        pend2,
                    )),
                    SchedPhase::Grouping => failed_as_told || (outcome is Carried && step is Done && c2 == c && pend2
                        == pend && final(self).slots() == slots.update(slot_index(gid, slots.len()), None)),
                    SchedPhase::Over => true,
                }
            }),
    {
        let n = self.resident.len();
        let _group_len = run.objects.len();
        match run.phase {
            SchedPhase::Direct(o) => match outcome {
                SchedOutcome::Carried => {
                    proof {
                        if run.required {
                            lemma_kept_grows(self.resident@, run.objects@, run.next as int);
                            assert(kept_or_displaced(self.resident@, run.objects@, run.next as int, run.next + 1));
                        } else {
                            assert(resident_or_queued(&*self, run.objects@[run.next as int]));
                        }
                    }
                    run.direct = false;
                    run.next = run.next + 1;
                    run.phase = SchedPhase::Scan;
                },
                SchedOutcome::Failed(e) => {
                    run.phase = SchedPhase::Over;
                    return SchedStep::Failed(e);
                },
                SchedOutcome::Finished { .. } => {
                    run.phase = SchedPhase::Over;
                    return SchedStep::Done;
                },
            },
            SchedPhase::Queuing(o) => match outcome {
                SchedOutcome::Carried => {
                    proof {
                        lemma_no_dup_push(self.pending@, o);
                    }
                    self.pending.push(o);
                    self.states.insert(o, SlotState::ReadQueued);
                    proof {
                        assert forall|sl: int| 0 <= sl < self.resident@.len() && #[trigger] self.resident@[sl] is Some implies {
                            let x = self.resident@[sl].unwrap();
                            &&& slot_index(x, self.resident@.len()) == sl
                            &&& self.states@.contains_key(x) && self.states@[x] == SlotState::InUse
                        } by {
                            let x = self.resident@[sl].unwrap();
                            assert(old(self).states@.contains_key(x) && slot_index(x, self.resident@.len()) == sl);
                            assert(x != o);
                        }
                    }
                    run.phase = SchedPhase::Scan;
                    if run.required {
                        return self.begin_wait(run, o, false);
                    }
                    proof {
                        let g = run.objects@;
                        assert forall|k: int| 0 <= k < run.next + 1 implies #[trigger] resident_or_queued(&*self, g[k]) by {
                            if k < run.next {
                                assert(resident_or_queued(&*old(self), g[k]));
                                if old(self).pending@.contains(g[k]) {
                                    let i = choose|i: int| 0 <= i < old(self).pending@.len() && old(self).pending@[i] == g[k];
                                    assert(self.pending@[i] == g[k]);
                                }
                            } else {
                                assert(self.pending@[self.pending@.len() - 1] == o);
                            }
                        }
                    }
                    run.next = run.next + 1;
                },
                SchedOutcome::Failed(e) => {
                    run.phase = SchedPhase::Over;
                    return SchedStep::Failed(e);
                },
                SchedOutcome::Finished { .. } => {
                    run.phase = SchedPhase::Over;
                    return SchedStep::Done;
                },
            },
            SchedPhase::Awaiting(o) => match outcome {
                SchedOutcome::Finished { wait_nanos } => {
                    self.wait_nanos = self.wait_nanos.wrapping_add(wait_nanos);
                    let useful = match self.entry_len(o) {
                        Some((_, u)) => u,
                        None => {
                            run.phase = SchedPhase::Over;
                            return SchedStep::Failed(FellmError::other("completed storage object missing"));
                        },
                    };
                    self.states.insert(o, SlotState::HostReady);
                    self.useful_bytes = self.useful_bytes.wrapping_add(useful);
                    let with_direct = run.direct;
                    run.direct = false;
                    self.states.insert(o, SlotState::H2dQueued);
                    proof {
                        assert forall|sl: int| 0 <= sl < self.resident@.len() && #[trigger] self.resident@[sl] is Some implies {
                            let x = self.resident@[sl].unwrap();
                            &&& slot_index(x, self.resident@.len()) == sl
                            &&& self.states@.contains_key(x) && self.states@[x] == SlotState::InUse
                        } by {
                            let x = self.resident@[sl].unwrap();
                            assert(old(self).states@.contains_key(x) && slot_index(x, self.resident@.len()) == sl);
                            assert(x != o);
                        }
                    }
                    run.phase = SchedPhase::Uploading(o);
                    return SchedStep::Upload { object: o, with_direct };
                },
                SchedOutcome::Failed(e) => {
                    run.phase = SchedPhase::Over;
                    return SchedStep::Failed(e);
                },
                SchedOutcome::Carried => {
                    run.phase = SchedPhase::Over;
                    return SchedStep::Done;
                },
            },
            SchedPhase::Uploading(o) => match outcome {
                SchedOutcome::Carried => {
                    let slot = (#[verifier::truncate] (o as usize)) % n;
                    let victim = self.resident[slot];
                    let ghost before = self.resident@;
                    self.resident.set(slot, Some(o));
                    match victim {
                        Some(v) => if v != o {
                            self.states.insert(v, SlotState::Empty);
                        },
                        None => {},
                    }
                    self.states.insert(o, SlotState::InUse);
                    proof {
                        let g = run.objects@;
                        let m = run.next as int;
                        assert(self.resident@ =~= before.update(slot as int, Some(o)));
                        assert forall|sl: int| 0 <= sl < self.resident@.len() && #[trigger] self.resident@[sl] is Some implies {
                            let x = self.resident@[sl].unwrap();
                            &&& slot_index(x, self.resident@.len()) == sl
                            &&& self.states@.contains_key(x) && self.states@[x] == SlotState::InUse
                        } by {
                            if sl != slot {
                                let x = self.resident@[sl].unwrap();
                                assert(before[sl] == self.resident@[sl]);
                                assert(old(self).states@.contains_key(x) && slot_index(x, before.len()) == sl);
                                if victim is Some && victim.unwrap() != o && x == victim.unwrap() {
                                    assert(slot_index(victim.unwrap(), before.len()) == slot as int);
                                }
                            }
                        }
                        if run.required {
                            assert forall|k: int| 0 <= k < m + 1 implies #[trigger] kept_or_displaced(self.resident@, g, k, m + 1) by {
                                if k < m {
                                    assert(kept_or_displaced(before, g, k, m));
                                    if slot_index(g[k], before.len()) == slot as int {
                                        assert(slot_index(g[m], before.len()) == slot as int);
                                        assert(k < m < m + 1);
                                    } else if before[slot_index(g[k], before.len())] == Some(g[k]) {
                                    } else {
                                        let j = choose|j: int| k < j < m && slot_index(#[trigger] g[j], before.len())
                                            == slot_index(g[k], before.len());
                                        assert(k < j < m + 1);
                                    }
                                } else {
                                    assert(self.resident@[slot as int] == Some(g[m]));
                                }
                            }
                        }
                    }
                    run.next = run.next + 1;
                    run.phase = SchedPhase::Scan;
                },
                SchedOutcome::Failed(e) => {
                    run.phase = SchedPhase::Over;
                    return SchedStep::Failed(e);
                },
                SchedOutcome::Finished { .. } => {
                    run.phase = SchedPhase::Over;
                    return SchedStep::Done;
                },
            },
            SchedPhase::Grouping => match outcome {
                SchedOutcome::Carried => {
                    let slot = (#[verifier::truncate] (run.group_id as usize)) % n;
                    let ghost before = self.resident@;
                    match self.resident[slot] {
                        Some(v) => {
                            self.resident.set(slot, None);
                            self.states.insert(v, SlotState::Empty);
                            proof {
                                assert forall|sl: int| 0 <= sl < self.resident@.len() && #[trigger] self.resident@[sl] is Some implies {
                                    let x = self.resident@[sl].unwrap();
                                    &&& slot_index(x, self.resident@.len()) == sl
                                    &&& self.states@.contains_key(x) && self.states@[x] == SlotState::InUse
                                } by {
                                    let x = self.resident@[sl].unwrap();
                                    assert(before[sl] == self.resident@[sl]);
                                    assert(old(self).states@.contains_key(x) && slot_index(x, before.len()) == sl);
                                    if x == v {
                                        assert(slot_index(v, before.len()) == slot as int);
                                    }
                                }
                            }
                        },
                        None => {},
                    }
                    proof {
                        let g = run.objects@;
                        assert forall|k: int| 0 <= k < g.len() implies #[trigger] kept_or_displaced(
                            self.resident@,
                            g,
                            k,
                            g.len() as int,
                        ) || slot_index(g[k], self.resident@.len()) == slot_index(run.group_id, self.resident@.len()) by {
                            assert(kept_or_displaced(before, g, k, g.len() as int));
                            if slot_index(g[k], before.len()) != slot as int {
                                assert(self.resident@[slot_index(g[k], before.len())] == before[slot_index(g[k], before.len())]);
                            }
                        }
                    }
                    run.phase = SchedPhase::Over;
                    return SchedStep::Done;
                },
                SchedOutcome::Failed(e) => {
                    run.phase = SchedPhase::Over;
                    return SchedStep::Failed(e);
                },
                SchedOutcome::Finished { .. } => {
                    run.phase = SchedPhase::Over;
                    return SchedStep::Done;
                },
            },
            SchedPhase::Scan => {},
            SchedPhase::Over => {
                return SchedStep::Done;
            },
        }
        self.scan(run)
    }
}

/// The scheduler's request and byte counts.
#[derive(Debug, Clone, Copy, PartialEq, Eq, Structural)]
pub struct SchedCounts {
    /// Storage objects that needed groups asked for.
    pub required_requests: u64,
    /// Of those, found on the device.
    pub resident_hits: u64,
    /// Of those, with a read already queued.
    pub prefetch_hits: u64,
    /// Of those, read on demand.
    pub prefetch_misses: u64,
    /// Weight bytes uploaded from reads.
    pub useful_bytes: u64,
    /// Time spent waiting for reads.
    pub wait_nanos: u64,
}

impl StorageScheduler {
    /// Number of device slots.
    pub fn slot_count(&self) -> (n: usize)
        ensures
            n == self.slots().len(),
    {
        self.resident.len()
    }

    /// The object in a device slot.
    pub fn slot(&self, i: usize) -> (r: Option<u64>)
        requires
            i < self.slots().len(),
        ensures
            r == self.slots()[i as int],
    {
        self.resident[i]
    }

    /// The state of an object.
    pub fn state_of(&self, o: u64) -> (r: Option<SlotState>)
        ensures
            r == if self.object_states().contains_key(o) { Some(self.object_states()[o]) } else { None },
    {
        match self.states.get(&o) {
            Some(st) => Some(*st),
            None => None,
        }
    }

    /// Objects whose read is queued, earliest first.
    pub fn queued_reads(&self) -> (v: Vec<u64>)
        ensures
            v@ == self.in_flight(),
    {
        self.pending.clone()
    }

    /// The request and byte counts.
    pub fn counts(&self) -> (c: SchedCounts)
        ensures
            (c.required_requests, c.resident_hits, c.prefetch_hits, c.prefetch_misses, c.useful_bytes, c.wait_nanos)
                == self.counters(),
    {
        SchedCounts {
            required_requests: self.required_requests,
            resident_hits: self.resident_hits,
            prefetch_hits: self.prefetch_hits,
            prefetch_misses: self.prefetch_misses,
            useful_bytes: self.useful_bytes,
            wait_nanos: self.wait_nanos,
        }
    }
}

/// Slots are direct-mapped: an object in a slot is in the slot its id maps to, is in use,
/// and no object is in two slots; and no read is queued twice.
pub proof fn lemma_scheduler_slots(s: &StorageScheduler)
    requires
        s.wf(),
    ensures
        forall|sl: int| 0 <= sl < s.slots().len() && #[trigger] s.slots()[sl] is Some ==> slot_index(
            s.slots()[sl].unwrap(),
            s.slots().len(),
        ) == sl && s.object_states().contains_key(s.slots()[sl].unwrap()) && s.object_states()[s.slots()[sl].unwrap()]
            == SlotState::InUse,
        forall|a: int, b: int|
            0 <= a < s.slots().len() && 0 <= b < s.slots().len() && a != b && #[trigger] s.slots()[a] is Some
                && #[trigger] s.slots()[b] is Some ==> s.slots()[a] != s.slots()[b],
        s.in_flight().no_duplicates(),
{
    assert forall|a: int, b: int|
        0 <= a < s.slots().len() && 0 <= b < s.slots().len() && a != b && #[trigger] s.slots()[a] is Some
            && #[trigger] s.slots()[b] is Some implies s.slots()[a] != s.slots()[b] by {
        lemma_slot_of_resident(s, a);
        lemma_slot_of_resident(s, b);
    }
}

} // verus!

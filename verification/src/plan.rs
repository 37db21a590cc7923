//! Static arena planning for transient tensors: each tensor gets a byte range in one
//! arena, and tensors whose lifetimes overlap never share bytes.
use vstd::prelude::*;

use crate::dtype::DType;
use crate::error::{FellmError, Result};
use crate::shape::{prefix_products_fit, product};

verus! {

/// Identity of a tensor in a physical plan.
#[derive(Debug, Clone, Copy, PartialEq, Eq, Structural)]
pub struct PlanTensorId(pub u32);

/// Where a planned tensor lives.
#[derive(Debug, Clone, Copy, PartialEq, Eq, Structural)]
pub enum StorageClass {
    /// Immutable model constants.
    Constant,
    /// Activations and scratch values that live for a bounded range of operations.
    Transient,
    /// State that persists across steps.
    Persistent,
}

/// A tensor to be planned.
#[derive(Debug, Clone)]
pub struct PlanTensorDesc {
    /// Identity.
    pub id: PlanTensorId,
    /// Element type.
    pub dtype: DType,
    /// Shape in logical elements.
    pub shape: Vec<u64>,
    /// Required byte alignment.
    pub alignment: usize,
    /// Storage class; only transient tensors are placed in the arena.
    pub storage: StorageClass,
    /// Index of the first operation that uses the tensor.
    pub first_use: u32,
    /// Index of the last operation that uses the tensor.
    pub last_use: u32,
}

/// Bytes of a tensor of `dtype` with dimensions `shape`, when every intermediate value
/// (the running product of the dimensions, and the byte size) fits.
pub open spec fn spec_byte_len(dtype: DType, shape: Seq<u64>) -> Option<nat> {
    if !prefix_products_fit(shape) || product(shape) > usize::MAX {
        None
    } else if dtype.spec_byte_size(product(shape)) > usize::MAX {
        None
    } else {
        Some(dtype.spec_byte_size(product(shape)))
    }
}

impl PlanTensorDesc {
    /// Payload size in bytes, if it fits in a `usize`.
    pub fn byte_len(&self) -> (r: Option<usize>)
        ensures
            r matches Some(n) ==> spec_byte_len(self.dtype, self.shape@) == Some(n as nat),
            r is None ==> spec_byte_len(self.dtype, self.shape@) is None,
    {
        let mut n: u64 = 1;
        let mut i: usize = 0;
        proof {
            assert(self.shape@.take(0) =~= Seq::<u64>::empty());
        }
        while i < self.shape.len()
            invariant
                i <= self.shape@.len(),
                n == product(self.shape@.take(i as int)),
                forall|j: int| 0 <= j <= i ==> #[trigger] product(self.shape@.take(j)) <= u64::MAX,
            decreases self.shape@.len() - i,
        {
            proof {
                assert(self.shape@.take(i + 1) =~= self.shape@.take(i as int).push(self.shape@[i as int]));
                crate::shape::lemma_product_push(self.shape@.take(i as int), self.shape@[i as int]);
            }
            match n.checked_mul(self.shape[i]) {
                Some(m) => {
                    n = m;
                },
                None => {
                    proof {
                        assert(product(self.shape@.take(i + 1)) > u64::MAX);
                    }
                    return None;
                },
            }
            i = i + 1;
        }
        proof {
            assert(self.shape@.take(self.shape@.len() as int) =~= self.shape@);
        }
        if n > usize::MAX as u64 {
            return None;
        }
        let elems = n as usize;
        let epb = self.dtype.elements_per_block();
        let bpb = self.dtype.bytes_per_block();
        let q = elems / epb;
        let blocks = if elems % epb == 0 {
            q
        } else {
            assert(epb >= 2);
            assert(q < usize::MAX) by (nonlinear_arith)
                requires
                    q == elems / epb,
                    epb >= 2,
                    elems <= usize::MAX,
            ;
            q + 1
        };
        proof {
            crate::dtype::lemma_div_ceil(elems as nat, epb as nat);
        }
        blocks.checked_mul(bpb)
    }
}

/// The placement of one transient tensor in the arena.
#[derive(Debug, Clone, Copy, PartialEq, Eq, Structural)]
pub struct ArenaSlot {
    /// The tensor.
    pub tensor: PlanTensorId,
    /// Byte offset in the arena.
    pub offset: usize,
    /// Byte size.
    pub size: usize,
    /// Alignment the offset honours.
    pub alignment: usize,
    /// First use.
    pub first_use: u32,
    /// Last use.
    pub last_use: u32,
}

/// A plan: one slot per transient tensor and the arena size.
#[derive(Debug, Clone)]
pub struct PhysicalPlan {
    /// Slots, in planning order.
    pub arena: Vec<ArenaSlot>,
    /// Total arena bytes (a multiple of 256).
    pub arena_bytes: usize,
}

/// A byte range of the arena that was opened for one tensor and may be reused by later
/// tensors once the last user has finished.
#[derive(Debug, Clone, Copy)]
pub struct FreeRegion {
    /// Start of the range.
    pub offset: usize,
    /// Length of the range.
    pub size: usize,
    /// Last use of the most recent tensor placed in the range.
    pub available_after: u32,
}

/// True when `a` is a power of two.
pub open spec fn is_pow2(a: usize) -> bool {
    a != 0 && a & ((a - 1) as usize) == 0
}

/// `value` rounded up to a multiple of `alignment` (at least 1), when the alignment is a
/// power of two and the rounding does not overflow.
pub open spec fn spec_align_up(value: usize, alignment: usize) -> Option<usize> {
    let a: usize = if alignment < 1 { 1 } else { alignment };
    if !is_pow2(a) || value + (a - 1) > usize::MAX {
        None
    } else {
        Some((((value + (a - 1)) as nat / a as nat) * a as nat) as usize)
    }
}

/// A rounded-up value is a multiple of the alignment, not below the value, and less than
/// one alignment above it.
pub proof fn lemma_align_up(value: usize, alignment: usize)
    requires
        spec_align_up(value, alignment) is Some,
    ensures
        ({
            let a: usize = if alignment < 1 { 1 } else { alignment };
            let r = spec_align_up(value, alignment).unwrap();
            &&& r % a == 0
            &&& value <= r
            &&& r <= value + (a - 1)
        }),
{
    let a: usize = if alignment < 1 { 1 } else { alignment };
    let x = (value + (a - 1)) as nat;
    let q = x / a as nat;
    vstd::arithmetic::div_mod::lemma_fundamental_div_mod(x as int, a as int);
    assert(q * a <= x) by (nonlinear_arith)
        requires
            x == a * q + x % (a as nat),
            x % (a as nat) >= 0,
    ;
    assert(x < q * a + a) by (nonlinear_arith)
        requires
            x == a * q + x % (a as nat),
            x % (a as nat) < a,
    ;
    vstd::arithmetic::div_mod::lemma_mod_multiples_basic(q as int, a as int);
    assert((q * a) as usize == q * a);
}

/// Round `value` up to a multiple of `alignment` (at least 1); fails when the alignment
/// is not a power of two or the result would overflow.
pub fn align_up(value: usize, alignment: usize) -> (r: Result<usize>)
    ensures
        match spec_align_up(value, alignment) {
            Some(v) => r == Ok::<usize, FellmError>(v),
            None => r matches Err(FellmError::Other(_)),
        },
{
    let alignment = if alignment < 1 { 1 } else { alignment };
    if alignment & (alignment - 1) != 0 {
        return Err(FellmError::other("device arena alignment is not a power of two"));
    }
    match value.checked_add(alignment - 1) {
        Some(v) => {
            proof {
                lemma_align_up(value, alignment);
                vstd::arithmetic::div_mod::lemma_fundamental_div_mod(v as int, alignment as int);
                assert((v / alignment) * alignment <= v) by (nonlinear_arith)
                    requires
                        v == alignment * (v / alignment) + v % alignment,
                        v % alignment >= 0,
                ;
            }
            Ok(v / alignment * alignment)
        },
        None => Err(FellmError::other("device arena alignment overflow")),
    }
}


/// What planning needs to know of one tensor.
pub struct PlanInput {
    /// Identity.
    pub id: PlanTensorId,
    /// Payload bytes, if they fit.
    pub size: Option<usize>,
    /// Requested alignment.
    pub alignment: usize,
    /// First use.
    pub first_use: u32,
    /// Last use.
    pub last_use: u32,
}

/// The planning view of a tensor.
pub open spec fn plan_input(t: PlanTensorDesc) -> PlanInput {
    PlanInput {
        id: t.id,
        size: match spec_byte_len(t.dtype, t.shape@) {
            Some(n) => Some(n as usize),
            None => None,
        },
        alignment: t.alignment,
        first_use: t.first_use,
        last_use: t.last_use,
    }
}

/// Planning state after some tensors: the slots so far, the regions opened so far, the
/// high-water mark, and (as bookkeeping for the proofs) which region holds each slot.
pub struct PlanState {
    /// Slots so far.
    pub slots: Seq<ArenaSlot>,
    /// Regions opened so far.
    pub regions: Seq<FreeRegion>,
    /// End of the furthest byte used so far.
    pub high_water: usize,
    /// Index of the region holding each slot.
    pub owners: Seq<int>,
}

/// The aligned offset at which a tensor of `size` bytes fits in `r`, when `r` is free
/// before `first` and the aligned tensor lies inside it.
pub open spec fn fit_offset(r: FreeRegion, size: usize, alignment: usize, first: u32) -> Option<usize> {
    if r.available_after < first {
        match spec_align_up(r.offset, alignment) {
            Some(o) => if o + size <= usize::MAX && o + size <= r.offset + r.size {
                Some(o)
            } else {
                None
            },
            None => None,
        }
    } else {
        None
    }
}

/// Region `c` is the best fit: the first of the smallest regions that fit.
pub open spec fn is_best(rs: Seq<FreeRegion>, c: int, size: usize, alignment: usize, first: u32) -> bool {
    &&& 0 <= c < rs.len()
    &&& fit_offset(rs[c], size, alignment, first) is Some
    &&& forall|j: int| 0 <= j < c && (#[trigger] fit_offset(rs[j], size, alignment, first)) is Some
        ==> rs[j].size > rs[c].size
    &&& forall|j: int| c < j < rs.len() && (#[trigger] fit_offset(rs[j], size, alignment, first)) is Some
        ==> rs[j].size >= rs[c].size
}

/// The best-fitting region, if any region fits.
pub open spec fn best_fit(rs: Seq<FreeRegion>, size: usize, alignment: usize, first: u32) -> Option<int> {
    if exists|c: int| is_best(rs, c, size, alignment, first) {
        Some(choose|c: int| is_best(rs, c, size, alignment, first))
    } else {
        None
    }
}

/// There is at most one best fit.
proof fn lemma_best_unique(rs: Seq<FreeRegion>, c1: int, c2: int, size: usize, alignment: usize, first: u32)
    requires
        is_best(rs, c1, size, alignment, first),
        is_best(rs, c2, size, alignment, first),
    ensures
        c1 == c2,
{
    if c1 < c2 {
        assert(fit_offset(rs[c1], size, alignment, first) is Some);
    } else if c2 < c1 {
        assert(fit_offset(rs[c2], size, alignment, first) is Some);
    }
}

/// Planning one more tensor, or `None` when planning fails.
pub open spec fn plan_step(st: PlanState, t: PlanInput) -> Option<PlanState> {
    if t.last_use < t.first_use {
        None
    } else {
        match t.size {
            None => None,
            Some(size) => {
                let alignment: usize = if t.alignment < 16 { 16 } else { t.alignment };
                match best_fit(st.regions, size, alignment, t.first_use) {
                    Some(c) => {
                        let offset = fit_offset(st.regions[c], size, alignment, t.first_use).unwrap();
                        let end = (offset + size) as usize;
                        Some(PlanState {
                            slots: st.slots.push(ArenaSlot {
                                tensor: t.id,
                                offset,
                                size,
                                alignment,
                                first_use: t.first_use,
                                last_use: t.last_use,
                            }),
                            regions: st.regions.update(c, FreeRegion {
                                offset: st.regions[c].offset,
                                size: st.regions[c].size,
                                available_after: t.last_use,
                            }),
                            high_water: if st.high_water < end { end } else { st.high_water },
                            owners: st.owners.push(c),
                        })
                    },
                    None => match spec_align_up(st.high_water, alignment) {
                        None => None,
                        Some(offset) => if offset + size > usize::MAX {
                            None
                        } else {
                            let end = (offset + size) as usize;
                            Some(PlanState {
                                slots: st.slots.push(ArenaSlot {
                                    tensor: t.id,
                                    offset,
                                    size,
                                    alignment,
                                    first_use: t.first_use,
                                    last_use: t.last_use,
                                }),
                                regions: st.regions.push(FreeRegion {
                                    offset,
                                    size,
                                    available_after: t.last_use,
                                }),
                                high_water: if st.high_water < end { end } else { st.high_water },
                                owners: st.owners.push(st.regions.len() as int),
                            })
                        },
                    },
                }
            },
        }
    }
}

/// The state after planning `ts` in order, or `None` if planning fails.
pub open spec fn plan_seq(ts: Seq<PlanInput>) -> Option<PlanState>
    decreases ts.len(),
{
    if ts.len() == 0 {
        Some(PlanState {
            slots: Seq::empty(),
            regions: Seq::empty(),
            high_water: 0,
            owners: Seq::empty(),
        })
    } else {
        match plan_seq(ts.drop_last()) {
            None => None,
            Some(st) => plan_step(st, ts.last()),
        }
    }
}

/// The slots and arena size of planning `ts` in order: the high-water mark rounded up to
/// 256 bytes.
pub open spec fn plan_result(ts: Seq<PlanInput>) -> Option<(Seq<ArenaSlot>, usize)> {
    match plan_seq(ts) {
        None => None,
        Some(st) => match spec_align_up(st.high_water, 256) {
            None => None,
            Some(bytes) => Some((st.slots, bytes)),
        },
    }
}

/// Planning order: transient tensors first by first use, then by larger size, then by id.
pub open spec fn key_lt(a: PlanInput, b: PlanInput) -> bool {
    ||| a.first_use < b.first_use
    ||| a.first_use == b.first_use && (match (a.size, b.size) {
        (Some(_), None) => true,
        (Some(x), Some(y)) => x > y,
        _ => false,
    })
    ||| a.first_use == b.first_use && a.size == b.size && a.id.0 < b.id.0
}

/// `order` lists each transient tensor of `ts` exactly once, in planning order.
pub open spec fn is_plan_order(ts: Seq<PlanTensorDesc>, order: Seq<int>) -> bool {
    &&& forall|k: int| 0 <= k < order.len() ==> 0 <= #[trigger] order[k] < ts.len()
    &&& forall|k: int| 0 <= k < order.len() ==> ts[#[trigger] order[k]].storage == StorageClass::Transient
    &&& forall|i: int| 0 <= i < ts.len() && ts[i].storage == StorageClass::Transient ==> #[trigger] order.contains(i)
    &&& order.no_duplicates()
    &&& forall|a: int, b: int| 0 <= a < b < order.len() ==> !key_lt(plan_input(ts[#[trigger] order[b]]), plan_input(ts[#[trigger] order[a]]))
}

/// The planning inputs of the tensors listed in `order`.
pub open spec fn ordered_inputs(ts: Seq<PlanTensorDesc>, order: Seq<int>) -> Seq<PlanInput> {
    Seq::new(order.len(), |k: int| plan_input(ts[order[k]]))
}

/// Two slots whose lifetimes overlap do not share any byte.
pub open spec fn no_alias(slots: Seq<ArenaSlot>) -> bool {
    forall|i: int, j: int|
        0 <= i < slots.len() && 0 <= j < slots.len() && i != j
            && #[trigger] slots[i].first_use <= #[trigger] slots[j].last_use
            && slots[j].first_use <= slots[i].last_use
            ==> slots[i].offset + slots[i].size <= slots[j].offset
            || slots[j].offset + slots[j].size <= slots[i].offset
}

/// Every slot is aligned as it asks, to at least 16 bytes, and lies inside the arena.
pub open spec fn slots_placed(slots: Seq<ArenaSlot>, arena_bytes: usize) -> bool {
    forall|i: int| 0 <= i < slots.len() ==> {
        &&& (#[trigger] slots[i]).alignment >= 16
        &&& slots[i].offset % slots[i].alignment == 0
        &&& slots[i].offset + slots[i].size <= arena_bytes
        &&& slots[i].first_use <= slots[i].last_use
    }
}

/// The invariant that planning keeps.
pub open spec fn plan_wf(st: PlanState) -> bool {
    let slots = st.slots;
    let regions = st.regions;
    let owners = st.owners;
    &&& owners.len() == slots.len()
    &&& forall|i: int| 0 <= i < slots.len() ==> 0 <= #[trigger] owners[i] < regions.len()
    &&& forall|i: int| 0 <= i < slots.len() ==> {
        &&& regions[owners[i]].offset <= (#[trigger] slots[i]).offset
        &&& slots[i].offset + slots[i].size <= regions[owners[i]].offset + regions[owners[i]].size
        &&& slots[i].first_use <= slots[i].last_use
        &&& slots[i].last_use <= regions[owners[i]].available_after
        &&& slots[i].alignment >= 16
        &&& slots[i].offset % slots[i].alignment == 0
    }
    &&& forall|i: int, j: int| 0 <= i < j < slots.len() && #[trigger] owners[i] == #[trigger] owners[j]
        ==> slots[i].last_use < slots[j].first_use
    &&& forall|a: int, b: int| 0 <= a < b < regions.len()
        ==> #[trigger] regions[a].offset + regions[a].size <= #[trigger] regions[b].offset
    &&& forall|a: int| 0 <= a < regions.len() ==> (#[trigger] regions[a]).offset + regions[a].size <= st.high_water
}

/// One planning step keeps the invariant.
proof fn lemma_step_wf(st: PlanState, t: PlanInput)
    requires
        plan_wf(st),
        plan_step(st, t) is Some,
    ensures
        plan_wf(plan_step(st, t).unwrap()),
{
    let size = t.size.unwrap();
    let alignment: usize = if t.alignment < 16 { 16 } else { t.alignment };
    let nst = plan_step(st, t).unwrap();
    let n = st.slots.len() as int;
    match best_fit(st.regions, size, alignment, t.first_use) {
        Some(c) => {
            assert(is_best(st.regions, c, size, alignment, t.first_use));
            let r = st.regions[c];
            lemma_align_up(r.offset, alignment);
            assert forall|i: int| 0 <= i < nst.slots.len() implies 0 <= #[trigger] nst.owners[i] < nst.regions.len() by {
                if i < n {
                    assert(nst.owners[i] == st.owners[i]);
                }
            }
            assert forall|i: int| 0 <= i < nst.slots.len() implies {
                &&& nst.regions[nst.owners[i]].offset <= (#[trigger] nst.slots[i]).offset
                &&& nst.slots[i].offset + nst.slots[i].size <= nst.regions[nst.owners[i]].offset + nst.regions[nst.owners[i]].size
                &&& nst.slots[i].first_use <= nst.slots[i].last_use
                &&& nst.slots[i].last_use <= nst.regions[nst.owners[i]].available_after
                &&& nst.slots[i].alignment >= 16
                &&& nst.slots[i].offset % nst.slots[i].alignment == 0
            } by {
                if i < n {
                    assert(nst.slots[i] == st.slots[i]);
                    assert(nst.owners[i] == st.owners[i]);
                    let o = st.owners[i];
                    assert(st.slots[i].last_use <= st.regions[o].available_after);
                }
            }
            assert forall|i: int, j: int| 0 <= i < j < nst.slots.len() && #[trigger] nst.owners[i] == #[trigger] nst.owners[j]
                implies nst.slots[i].last_use < nst.slots[j].first_use by {
                assert(nst.owners[i] == st.owners[i]);
                assert(nst.slots[i] == st.slots[i]);
                if j < n {
                    assert(nst.owners[j] == st.owners[j]);
                    assert(nst.slots[j] == st.slots[j]);
                } else {
                    let o = st.owners[i];
                    assert(st.slots[i].last_use <= st.regions[o].available_after);
                }
            }
            assert forall|a: int, b: int| 0 <= a < b < nst.regions.len()
                implies #[trigger] nst.regions[a].offset + nst.regions[a].size <= #[trigger] nst.regions[b].offset by {
                assert(st.regions[a].offset + st.regions[a].size <= st.regions[b].offset);
            }
            assert forall|a: int| 0 <= a < nst.regions.len() implies (#[trigger] nst.regions[a]).offset + nst.regions[a].size <= nst.high_water by {
                assert(st.regions[a].offset + st.regions[a].size <= st.high_water);
            }
        },
        None => {
            let offset = spec_align_up(st.high_water, alignment).unwrap();
            lemma_align_up(st.high_water, alignment);
            let m = st.regions.len() as int;
            assert forall|i: int| 0 <= i < nst.slots.len() implies 0 <= #[trigger] nst.owners[i] < nst.regions.len() by {
                if i < n {
                    assert(nst.owners[i] == st.owners[i]);
                }
            }
            assert forall|i: int| 0 <= i < nst.slots.len() implies {
                &&& nst.regions[nst.owners[i]].offset <= (#[trigger] nst.slots[i]).offset
                &&& nst.slots[i].offset + nst.slots[i].size <= nst.regions[nst.owners[i]].offset + nst.regions[nst.owners[i]].size
                &&& nst.slots[i].first_use <= nst.slots[i].last_use
                &&& nst.slots[i].last_use <= nst.regions[nst.owners[i]].available_after
                &&& nst.slots[i].alignment >= 16
                &&& nst.slots[i].offset % nst.slots[i].alignment == 0
            } by {
                if i < n {
                    assert(nst.slots[i] == st.slots[i]);
                    assert(nst.owners[i] == st.owners[i]);
                    assert(nst.regions[st.owners[i]] == st.regions[st.owners[i]]);
                }
            }
            assert forall|i: int, j: int| 0 <= i < j < nst.slots.len() && #[trigger] nst.owners[i] == #[trigger] nst.owners[j]
                implies nst.slots[i].last_use < nst.slots[j].first_use by {
                assert(nst.owners[i] == st.owners[i]);
                if j < n {
                    assert(nst.owners[j] == st.owners[j]);
                    assert(nst.slots[i] == st.slots[i]);
                    assert(nst.slots[j] == st.slots[j]);
                }
            }
            assert forall|a: int, b: int| 0 <= a < b < nst.regions.len()
                implies #[trigger] nst.regions[a].offset + nst.regions[a].size <= #[trigger] nst.regions[b].offset by {
                if b < m {
                    assert(nst.regions[a] == st.regions[a] && nst.regions[b] == st.regions[b]);
                    assert(st.regions[a].offset + st.regions[a].size <= st.regions[b].offset);
                } else {
                    assert(nst.regions[a] == st.regions[a]);
                    assert(st.regions[a].offset + st.regions[a].size <= st.high_water);
                }
            }
            assert forall|a: int| 0 <= a < nst.regions.len() implies (#[trigger] nst.regions[a]).offset + nst.regions[a].size <= nst.high_water by {
                if a < m {
                    assert(nst.regions[a] == st.regions[a]);
                    assert(st.regions[a].offset + st.regions[a].size <= st.high_water);
                }
            }
        },
    }
}

/// Planning keeps the invariant for every prefix.
proof fn lemma_plan_seq_wf(ts: Seq<PlanInput>)
    requires
        plan_seq(ts) is Some,
    ensures
        plan_wf(plan_seq(ts).unwrap()),
    decreases ts.len(),
{
    if ts.len() > 0 {
        lemma_plan_seq_wf(ts.drop_last());
        lemma_step_wf(plan_seq(ts.drop_last()).unwrap(), ts.last());
    }
}

/// A plan places every slot aligned, inside the arena, and never lets two tensors whose
/// lifetimes overlap share a byte; the arena size is a multiple of 256.
pub proof fn lemma_plan_sound(ts: Seq<PlanInput>)
    requires
        plan_result(ts) is Some,
    ensures
        no_alias(plan_result(ts).unwrap().0),
        slots_placed(plan_result(ts).unwrap().0, plan_result(ts).unwrap().1),
        plan_result(ts).unwrap().1 % 256 == 0,
{
    let st = plan_seq(ts).unwrap();
    lemma_plan_seq_wf(ts);
    lemma_align_up(st.high_water, 256);
    let bytes = plan_result(ts).unwrap().1;
    let slots = st.slots;
    assert forall|i: int| 0 <= i < slots.len() implies {
        &&& (#[trigger] slots[i]).alignment >= 16
        &&& slots[i].offset % slots[i].alignment == 0
        &&& slots[i].offset + slots[i].size <= bytes
        &&& slots[i].first_use <= slots[i].last_use
    } by {
        let o = st.owners[i];
        assert(st.regions[o].offset + st.regions[o].size <= st.high_water);
    }
    assert forall|i: int, j: int|
        0 <= i < slots.len() && 0 <= j < slots.len() && i != j
            && #[trigger] slots[i].first_use <= #[trigger] slots[j].last_use
            && slots[j].first_use <= slots[i].last_use
        implies slots[i].offset + slots[i].size <= slots[j].offset
            || slots[j].offset + slots[j].size <= slots[i].offset by {
        let oi = st.owners[i];
        let oj = st.owners[j];
        assert(0 <= oi < st.regions.len() && 0 <= oj < st.regions.len());
        if oi == oj {
            if i < j {
                assert(slots[i].last_use < slots[j].first_use);
            } else {
                assert(slots[j].last_use < slots[i].first_use);
            }
        } else if oi < oj {
            assert(st.regions[oi].offset + st.regions[oi].size <= st.regions[oj].offset);
        } else {
            assert(st.regions[oj].offset + st.regions[oj].size <= st.regions[oi].offset);
        }
    }
}


/// Once planning fails it stays failed.
proof fn lemma_plan_none_persists(ts: Seq<PlanInput>, k: int)
    requires
        0 <= k <= ts.len(),
        plan_seq(ts.take(k)) is None,
    ensures
        plan_seq(ts) is None,
    decreases ts.len() - k,
{
    if k < ts.len() {
        assert(ts.take(k + 1).drop_last() =~= ts.take(k));
        lemma_plan_none_persists(ts, k + 1);
    } else {
        assert(ts.take(k) =~= ts);
    }
}

/// Message for a tensor whose last use precedes its first.
#[verifier::external_body]
fn inverted_lifetime_message(id: PlanTensorId) -> String {
    format!("tensor {id:?} has an inverted lifetime")
}

/// Whether tensor `a` is planned strictly before tensor `b`.
fn key_less(a: &PlanTensorDesc, a_len: Option<usize>, b: &PlanTensorDesc, b_len: Option<usize>) -> (r: bool)
    requires
        plan_input(*a).size == a_len,
        plan_input(*b).size == b_len,
    ensures
        r == key_lt(plan_input(*a), plan_input(*b)),
{
    if a.first_use != b.first_use {
        return a.first_use < b.first_use;
    }
    match (a_len, b_len) {
        (Some(x), None) => true,
        (Some(x), Some(y)) => {
            if x != y {
                x > y
            } else {
                a.id.0 < b.id.0
            }
        },
        (None, Some(_)) => false,
        (None, None) => a.id.0 < b.id.0,
    }
}

/// The byte size of every tensor, as the planning view reports it.
fn all_byte_lens(tensors: &[PlanTensorDesc]) -> (lens: Vec<Option<usize>>)
    ensures
        lens@.len() == tensors@.len(),
        forall|i: int| 0 <= i < tensors@.len() ==> #[trigger] lens@[i] == plan_input(tensors@[i]).size,
{
    let mut lens: Vec<Option<usize>> = Vec::new();
    for i in 0..tensors.len()
        invariant
            lens@.len() == i,
            forall|j: int| 0 <= j < i ==> #[trigger] lens@[j] == plan_input(tensors@[j]).size,
    {
        lens.push(tensors[i].byte_len());
    }
    lens
}

/// The transient tensors, listed in planning order (stable for equal keys).
#[verifier::spinoff_prover]
#[verifier::rlimit(60)]
fn planning_order(tensors: &[PlanTensorDesc], lens: &Vec<Option<usize>>) -> (order: Vec<usize>)
    requires
        lens@.len() == tensors@.len(),
        forall|i: int| 0 <= i < tensors@.len() ==> #[trigger] lens@[i] == plan_input(tensors@[i]).size,
    ensures
        is_plan_order(tensors@, order@.map_values(|x: usize| x as int)),
{
    let mut order: Vec<usize> = Vec::new();
    let ghost ts = tensors@;
    for i in 0..tensors.len()
        invariant
            ts == tensors@,
            lens@.len() == ts.len(),
            forall|x: int| 0 <= x < ts.len() ==> #[trigger] lens@[x] == plan_input(ts[x]).size,
            forall|k: int| 0 <= k < order@.len() ==> #[trigger] order@[k] < i,
            forall|k: int| 0 <= k < order@.len() ==> ts[#[trigger] order@[k] as int].storage == StorageClass::Transient,
            forall|x: int| 0 <= x < i && ts[x].storage == StorageClass::Transient ==> #[trigger] order@.contains(x as usize),
            order@.no_duplicates(),
            forall|a: int, b: int| 0 <= a < b < order@.len() ==> !key_lt(plan_input(ts[#[trigger] order@[b] as int]), plan_input(ts[#[trigger] order@[a] as int])),
    {
        if tensors[i].storage == StorageClass::Transient {
            let mut p: usize = 0;
            loop
                invariant
                    p <= order@.len(),
                    ts == tensors@,
                    i < ts.len(),
                    lens@.len() == ts.len(),
                    forall|x: int| 0 <= x < ts.len() ==> #[trigger] lens@[x] == plan_input(ts[x]).size,
                    forall|k: int| 0 <= k < order@.len() ==> #[trigger] order@[k] < i,
                    forall|q: int| 0 <= q < p ==> !key_lt(plan_input(ts[i as int]), plan_input(ts[#[trigger] order@[q] as int])),
                ensures
                    p <= order@.len(),
                    forall|q: int| 0 <= q < p ==> !key_lt(plan_input(ts[i as int]), plan_input(ts[#[trigger] order@[q] as int])),
                    p < order@.len() ==> key_lt(plan_input(ts[i as int]), plan_input(ts[order@[p as int] as int])),
                decreases order@.len() - p,
            {
                if p >= order.len() {
                    break;
                }
                let o = order[p];
                if key_less(&tensors[i], lens[i], &tensors[o], lens[o]) {
                    break;
                }
                p = p + 1;
            }
            let ghost before = order@;
            order.insert(p, i);
            proof {
                assert(order@ == before.insert(p as int, i));
                assert forall|k: int| 0 <= k < order@.len() implies #[trigger] order@[k] < i + 1 by {
                    if k < p {
                        assert(order@[k] == before[k]);
                    } else if k > p {
                        assert(order@[k] == before[k - 1]);
                    }
                }
                assert forall|k: int| 0 <= k < order@.len() implies ts[#[trigger] order@[k] as int].storage == StorageClass::Transient by {
                    if k < p {
                        assert(order@[k] == before[k]);
                    } else if k > p {
                        assert(order@[k] == before[k - 1]);
                    }
                }
                assert forall|x: int| 0 <= x < i + 1 && ts[x].storage == StorageClass::Transient implies #[trigger] order@.contains(x as usize) by {
                    if x < i {
                        assert(before.contains(x as usize));
                        let k = choose|k: int| 0 <= k < before.len() && before[k] == x as usize;
                        if k < p {
                            assert(order@[k] == before[k]);
                        } else {
                            assert(order@[k + 1] == before[k]);
                        }
                    } else {
                        assert(order@[p as int] == i);
                    }
                }
                assert forall|a: int, b: int| 0 <= a < b < order@.len() implies order@[a] != order@[b] by {
                    if a < p && b < p {
                        assert(order@[a] == before[a] && order@[b] == before[b]);
                    } else if a < p && b == p {
                        assert(order@[a] == before[a]);
                    } else if a < p {
                        assert(order@[a] == before[a] && order@[b] == before[b - 1]);
                    } else if a == p {
                        assert(order@[b] == before[b - 1]);
                    } else {
                        assert(order@[a] == before[a - 1] && order@[b] == before[b - 1]);
                    }
                }
                assert forall|a: int, b: int| 0 <= a < b < order@.len() implies !key_lt(
                    plan_input(ts[#[trigger] order@[b] as int]),
                    plan_input(ts[#[trigger] order@[a] as int]),
                ) by {
                    let ti = plan_input(ts[i as int]);
                    if a < p && b < p {
                        assert(order@[a] == before[a] && order@[b] == before[b]);
                    } else if a < p && b == p {
                        assert(order@[a] == before[a]);
                    } else if a < p {
                        assert(order@[a] == before[a] && order@[b] == before[b - 1]);
                    } else if a == p {
                        assert(order@[b] == before[b - 1]);
                        let tb = plan_input(ts[before[b - 1] as int]);
                        let tp = plan_input(ts[before[p as int] as int]);
                        if b - 1 > p {
                            assert(!key_lt(tb, tp));
                        }
                    } else {
                        assert(order@[a] == before[a - 1] && order@[b] == before[b - 1]);
                    }
                }
            }
        }
    }
    proof {
        let m = order@.map_values(|x: usize| x as int);
        assert forall|k: int| 0 <= k < m.len() implies 0 <= #[trigger] m[k] < ts.len() by {
            assert(m[k] == order@[k] as int);
        }
        assert forall|k: int| 0 <= k < m.len() implies ts[#[trigger] m[k]].storage == StorageClass::Transient by {
            assert(m[k] == order@[k] as int);
        }
        assert forall|x: int| 0 <= x < ts.len() && ts[x].storage == StorageClass::Transient implies #[trigger] m.contains(x) by {
            assert(order@.contains(x as usize));
            let k = choose|k: int| 0 <= k < order@.len() && order@[k] == x as usize;
            assert(m[k] == x);
        }
        assert forall|a: int, b: int| 0 <= a < b < m.len() implies m[a] != m[b] by {
            assert(m[a] == order@[a] as int && m[b] == order@[b] as int);
        }
        assert forall|a: int, b: int| 0 <= a < b < m.len() implies !key_lt(plan_input(ts[#[trigger] m[b]]), plan_input(ts[#[trigger] m[a]])) by {
            assert(m[a] == order@[a] as int && m[b] == order@[b] as int);
        }
    }
    order
}

/// Plan transient tensors into one deterministic arena, reusing bytes across tensors whose
/// lifetimes do not overlap (best fit: the first of the smallest free regions that fit).
pub fn plan_static_arena(tensors: &[PlanTensorDesc]) -> (r: Result<PhysicalPlan>)
    ensures
        exists|order: Seq<int>| #![trigger is_plan_order(tensors@, order)]
            is_plan_order(tensors@, order) && match plan_result(ordered_inputs(tensors@, order)) {
                Some((slots, bytes)) => r matches Ok(p) && p.arena@ == slots && p.arena_bytes == bytes,
                None => r matches Err(FellmError::Other(_)),
            },
        r matches Ok(p) ==> no_alias(p.arena@) && slots_placed(p.arena@, p.arena_bytes)
            && p.arena_bytes % 256 == 0,
{
    let lens = all_byte_lens(tensors);
    let order = planning_order(tensors, &lens);
    let ghost gorder = order@.map_values(|x: usize| x as int);
    let ghost ins = ordered_inputs(tensors@, gorder);
    let mut slots: Vec<ArenaSlot> = Vec::new();
    let mut regions: Vec<FreeRegion> = Vec::new();
    let mut high_water: usize = 0;
    let ghost mut owners: Seq<int> = Seq::empty();
    let mut k: usize = 0;
    proof {
        assert(ins.take(0) =~= Seq::<PlanInput>::empty());
    }
    while k < order.len()
        invariant
            k <= order@.len(),
            gorder == order@.map_values(|x: usize| x as int),
            ins == ordered_inputs(tensors@, gorder),
            is_plan_order(tensors@, gorder),
            lens@.len() == tensors@.len(),
            forall|i: int| 0 <= i < tensors@.len() ==> #[trigger] lens@[i] == plan_input(tensors@[i]).size,
            plan_seq(ins.take(k as int)) == Some(PlanState { slots: slots@, regions: regions@, high_water, owners }),
            plan_wf(PlanState { slots: slots@, regions: regions@, high_water, owners }),
        decreases order@.len() - k,
    {
        let ix = order[k];
        proof {
            assert(gorder[k as int] == ix as int);
            assert(ins[k as int] == plan_input(tensors@[ix as int]));
            assert(ins.take(k + 1).drop_last() =~= ins.take(k as int));
            assert(ins.take(k + 1).last() == ins[k as int]);
        }
        let t = &tensors[ix];
        let ghost st = PlanState { slots: slots@, regions: regions@, high_water, owners };
        if t.last_use < t.first_use {
            proof {
                lemma_plan_none_persists(ins, k + 1);
            }
            return Err(FellmError::Other(inverted_lifetime_message(t.id)));
        }
        let size = match lens[ix] {
            Some(s) => s,
            None => {
                proof {
                    lemma_plan_none_persists(ins, k + 1);
                }
                return Err(FellmError::other("tensor byte size overflow"));
            },
        };
        let alignment = if t.alignment < 16 { 16 } else { t.alignment };
        // Best fit: the first of the smallest regions that are free and fit.
        let mut best: Option<(usize, usize)> = None;
        let mut j: usize = 0;
        while j < regions.len()
            invariant
                j <= regions@.len(),
                match best {
                    Some((c, off)) => c < j && fit_offset(regions@[c as int], size, alignment, t.first_use) == Some(off)
                        && (forall|q: int| 0 <= q < c && (#[trigger] fit_offset(regions@[q], size, alignment, t.first_use)) is Some
                            ==> regions@[q].size > regions@[c as int].size)
                        && (forall|q: int| c < q < j && (#[trigger] fit_offset(regions@[q], size, alignment, t.first_use)) is Some
                            ==> regions@[q].size >= regions@[c as int].size),
                    None => forall|q: int| 0 <= q < j ==> (#[trigger] fit_offset(regions@[q], size, alignment, t.first_use)) is None,
                },
                forall|a: int| 0 <= a < regions@.len() ==> (#[trigger] regions@[a]).offset + regions@[a].size <= high_water,
            decreases regions@.len() - j,
        {
            let region = regions[j];
            let mut fits: Option<usize> = None;
            if region.available_after < t.first_use {
                if let Ok(off) = align_up(region.offset, alignment) {
                    if let Some(end) = off.checked_add(size) {
                        if end <= region.offset + region.size {
                            fits = Some(off);
                        }
                    }
                }
            }
            proof {
                assert(fits == fit_offset(regions@[j as int], size, alignment, t.first_use));
            }
            if let Some(off) = fits {
                match best {
                    None => {
                        best = Some((j, off));
                    },
                    Some((c, _)) => {
                        if region.size < regions[c].size {
                            best = Some((j, off));
                        }
                    },
                }
            }
            j = j + 1;
        }
        proof {
            match best {
                Some((c, off)) => {
                    assert(is_best(regions@, c as int, size, alignment, t.first_use));
                    let chosen = choose|x: int| is_best(regions@, x, size, alignment, t.first_use);
                    lemma_best_unique(regions@, c as int, chosen, size, alignment, t.first_use);
                },
                None => {
                    assert forall|x: int| !is_best(regions@, x, size, alignment, t.first_use) by {
                        if 0 <= x < regions@.len() {
                            assert(fit_offset(regions@[x], size, alignment, t.first_use) is None);
                        }
                    }
                },
            }
        }
        let offset = match best {
            Some((_, off)) => off,
            None => match align_up(high_water, alignment) {
                Ok(o) => o,
                Err(e) => {
                    proof {
                        lemma_plan_none_persists(ins, k + 1);
                    }
                    return Err(e);
                },
            },
        };
        let end = match offset.checked_add(size) {
            Some(e) => e,
            None => {
                proof {
                    lemma_plan_none_persists(ins, k + 1);
                }
                return Err(FellmError::other("device arena size overflow"));
            },
        };
        if high_water < end {
            high_water = end;
        }
        match best {
            Some((c, _)) => {
                let old = regions[c];
                regions.set(c, FreeRegion { offset: old.offset, size: old.size, available_after: t.last_use });
                proof {
                    owners = owners.push(c as int);
                }
            },
            None => {
                proof {
                    owners = owners.push(regions@.len() as int);
                }
                regions.push(FreeRegion { offset, size, available_after: t.last_use });
            },
        }
        slots.push(ArenaSlot {
            tensor: t.id,
            offset,
            size,
            alignment,
            first_use: t.first_use,
            last_use: t.last_use,
        });
        proof {
            let nst = PlanState { slots: slots@, regions: regions@, high_water, owners };
            assert(plan_step(st, ins[k as int]) == Some(nst));
            lemma_step_wf(st, ins[k as int]);
        }
        k = k + 1;
    }
    proof {
        assert(ins.take(order@.len() as int) =~= ins);
    }
    let arena_bytes = match align_up(high_water, 256) {
        Ok(b) => b,
        Err(e) => return Err(e),
    };
    proof {
        lemma_plan_sound(ins);
    }
    Ok(PhysicalPlan { arena: slots, arena_bytes })
}

} // verus!

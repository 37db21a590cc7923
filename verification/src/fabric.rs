//! Device memory layouts of the CUDA backend: the weight fabric's packed replica (every
//! model weight once, in order of first appearance, each at an offset aligned for it, in
//! one allocation whose size is a multiple of 256) with the resolution of a plan tensor to
//! its weight's bytes; and the strided tensors of the static activation arena.
use vstd::prelude::*;

use std::collections::HashMap;

use crate::error::FellmError;
use crate::dtype::DType;
use crate::plan::{align_up, lemma_align_up, spec_align_up, ArenaSlot, PlanTensorDesc, PlanTensorId};

verus! {

/// A weight payload to pack: its logical weight, the plan tensor that uses it, its length
/// and the alignment it needs on the device.
#[derive(Debug, Clone, Copy, PartialEq, Eq, Structural)]
pub struct WeightBlob {
    /// Logical weight id.
    pub id: u64,
    /// Plan tensor id.
    pub tensor: PlanTensorId,
    /// Payload length in bytes.
    pub len: usize,
    /// Required device alignment.
    pub alignment: usize,
}

/// Where a weight sits in the packed replica.
#[derive(Debug, Clone, Copy, PartialEq, Eq, Structural)]
pub struct Placement {
    /// Byte offset.
    pub offset: usize,
    /// Byte length.
    pub len: usize,
}

/// The alignment a blob is placed at: its own, but at least 128.
pub open spec fn blob_alignment(b: WeightBlob) -> usize {
    if b.alignment < 128 {
        128
    } else {
        b.alignment
    }
}

/// Packing the blobs in order: each weight's first blob is placed at the cursor rounded
/// up to its alignment, and the cursor moves past it; later blobs of a packed weight add
/// nothing. `None` when an alignment is not a power of two or the size overflows.
pub open spec fn packing(blobs: Seq<WeightBlob>) -> Option<(Map<u64, Placement>, usize)>
    decreases blobs.len(),
{
    if blobs.len() == 0 {
        Some((Map::empty(), 0usize))
    } else {
        match packing(blobs.drop_last()) {
            None => None,
            Some((m, cursor)) => {
                let b = blobs.last();
                if m.contains_key(b.id) {
                    Some((m, cursor))
                } else {
                    match spec_align_up(cursor, blob_alignment(b)) {
                        None => None,
                        Some(o) => if o + b.len > usize::MAX {
                            None
                        } else {
                            Some((m.insert(b.id, Placement { offset: o, len: b.len }), (o + b.len) as usize))
                        },
                    }
                }
            },
        }
    }
}

/// The weight each plan tensor uses: the last blob for it.
pub open spec fn tensor_weight(blobs: Seq<WeightBlob>, t: PlanTensorId) -> Option<u64>
    decreases blobs.len(),
{
    if blobs.len() == 0 {
        None
    } else if blobs.last().tensor == t {
        Some(blobs.last().id)
    } else {
        tensor_weight(blobs.drop_last(), t)
    }
}

/// The packed replica's layout.
pub struct WeightPacking {
    offsets: HashMap<u64, Placement>,
    tensors: HashMap<u32, u64>,
    byte_len: usize,
}

/// Placements that do not overlap, each aligned for its blob and ending by `end`.
pub open spec fn packed_well(m: Map<u64, Placement>, end: nat) -> bool {
    &&& forall|w: u64| #[trigger] m.contains_key(w) ==> m[w].offset + m[w].len <= end
    &&& forall|w: u64, v: u64| #[trigger] m.contains_key(w) && #[trigger] m.contains_key(v) && w != v ==> m[w].offset
        + m[w].len <= m[v].offset || m[v].offset + m[v].len <= m[w].offset
}

impl WeightPacking {
    /// Where each weight sits.
    pub closed spec fn placements(&self) -> Map<u64, Placement> {
        self.offsets@
    }

    /// The weight of each plan tensor.
    pub closed spec fn tensor_map(&self) -> Map<u32, u64> {
        self.tensors@
    }

    /// Total bytes of the replica.
    pub closed spec fn spec_byte_len(&self) -> nat {
        self.byte_len as nat
    }

    /// Lay out the packed replica of these blobs: each weight once, at its first blob's
    /// turn, with the total rounded up to a multiple of 256.
    pub fn pack(blobs: &[WeightBlob]) -> (r: Result<WeightPacking, FellmError>)
        ensures
            match packing(blobs@) {
                None => r matches Err(FellmError::Other(_)),
                Some((m, cursor)) => match spec_align_up(cursor, 256) {
                    None => r matches Err(FellmError::Other(_)),
                    Some(total) => r matches Ok(p) && p.placements() == m && p.spec_byte_len() == total
                        && forall|t: u32| #[trigger] p.tensor_map().contains_key(t) <==> tensor_weight(
                        blobs@,
                        PlanTensorId(t),
                    ) is Some && (p.tensor_map().contains_key(t) ==> Some(p.tensor_map()[t]) == tensor_weight(
                        blobs@,
                        PlanTensorId(t),
                    )),
                },
            },
    {
        let mut offsets: HashMap<u64, Placement> = HashMap::new();
        let mut tensors: HashMap<u32, u64> = HashMap::new();
        let mut cursor: usize = 0;
        let mut i: usize = 0;
        assert(blobs@.take(0) =~= Seq::<WeightBlob>::empty());
        while i < blobs.len()
            invariant
                i <= blobs@.len(),
                packing(blobs@.take(i as int)) == Some((offsets@, cursor)),
                forall|t: u32| #[trigger] tensors@.contains_key(t) <==> tensor_weight(
                    blobs@.take(i as int),
                    PlanTensorId(t),
                ) is Some,
                forall|t: u32| tensors@.contains_key(t) ==> Some(#[trigger] tensors@[t]) == tensor_weight(
                    blobs@.take(i as int),
                    PlanTensorId(t),
                ),
            decreases blobs@.len() - i,
        {
            let b = blobs[i];
            proof {
                assert(blobs@.take(i + 1).drop_last() =~= blobs@.take(i as int));
                assert(blobs@.take(i + 1).last() == b);
            }
            tensors.insert(b.tensor.0, b.id);
            if !offsets.contains_key(&b.id) {
                let a = if b.alignment < 128 { 128 } else { b.alignment };
                let o = match align_up(cursor, a) {
                    Ok(o) => o,
                    Err(e) => {
                        proof {
                            lemma_packing_fails_after(blobs@, i as int + 1);
                        }
                        return Err(e);
                    },
                };
                let end = match o.checked_add(b.len) {
                    Some(e) => e,
                    None => {
                        proof {
                            lemma_packing_fails_after(blobs@, i as int + 1);
                        }
                        return Err(FellmError::other("CUDA weight replica size overflow"));
                    },
                };
                offsets.insert(b.id, Placement { offset: o, len: b.len });
                cursor = end;
            }
            proof {
                assert(offsets@ =~= packing(blobs@.take(i + 1)).unwrap().0);
                assert forall|t: u32| #[trigger] tensors@.contains_key(t) <==> tensor_weight(
                    blobs@.take(i + 1),
                    PlanTensorId(t),
                ) is Some by {}
            }
            i = i + 1;
        }
        assert(blobs@.take(blobs@.len() as int) =~= blobs@);
        let byte_len = align_up(cursor, 256)?;
        Ok(WeightPacking { offsets, tensors, byte_len })
    }

    /// Total bytes of the replica.
    pub fn byte_len(&self) -> (n: usize)
        ensures
            n == self.spec_byte_len(),
    {
        self.byte_len
    }

    /// The offset and length of the weight a plan tensor uses.
    pub fn resolve(&self, tensor: PlanTensorId) -> (r: Result<Placement, FellmError>)
        ensures
            match (if self.tensor_map().contains_key(tensor.0) { Some(self.tensor_map()[tensor.0]) } else { None }) {
                None => r matches Err(FellmError::Other(m)) && m@ == "model tensor has no logical WeightId"@,
                Some(w) => if self.placements().contains_key(w) {
                    r == Ok::<Placement, FellmError>(self.placements()[w])
                } else {
                    r matches Err(FellmError::Other(m)) && m@ == "model tensor absent from CUDA image"@
                },
            },
    {
        let id = match self.tensors.get(&tensor.0) {
            Some(id) => *id,
            None => {
                return Err(FellmError::other("model tensor has no logical WeightId"));
            },
        };
        match self.offsets.get(&id) {
            Some(p) => Ok(*p),
            None => Err(FellmError::other("model tensor absent from CUDA image")),
        }
    }
}

proof fn lemma_packing_fails_after(blobs: Seq<WeightBlob>, n: int)
    requires
        0 < n <= blobs.len(),
        packing(blobs.take(n)) is None,
    ensures
        packing(blobs) is None,
    decreases blobs.len() - n,
{
    if n < blobs.len() {
        assert(blobs.take(n + 1).drop_last() =~= blobs.take(n));
        lemma_packing_fails_after(blobs, n + 1);
    } else {
        assert(blobs.take(n) =~= blobs);
    }
}

/// The packed replica is sound: no two weights overlap, each sits at an offset aligned
/// for its first blob, and all of them end within the replica, whose size is a multiple of
/// 256.
pub proof fn lemma_packing_sound(blobs: Seq<WeightBlob>)
    requires
        packing(blobs) is Some,
        spec_align_up(packing(blobs).unwrap().1, 256) is Some,
    ensures
        ({
            let (m, cursor) = packing(blobs).unwrap();
            let total = spec_align_up(cursor, 256).unwrap();
            &&& packed_well(m, total as nat)
            &&& total % 256 == 0
            &&& forall|k: int| 0 <= k < blobs.len() ==> #[trigger] m.contains_key(blobs[k].id)
            &&& forall|w: u64| #[trigger] m.contains_key(w) ==> exists|k: int|
                0 <= k < blobs.len() && blobs[k].id == w && m[w].len == blobs[k].len
                    && m[w].offset % blob_alignment(blobs[k]) == 0
        }),
{
    lemma_packing_invariant(blobs);
    let (m, cursor) = packing(blobs).unwrap();
    lemma_align_up(cursor, 256);
}

proof fn lemma_packing_invariant(blobs: Seq<WeightBlob>)
    requires
        packing(blobs) is Some,
    ensures
        ({
            let (m, cursor) = packing(blobs).unwrap();
            &&& packed_well(m, cursor as nat)
            &&& forall|k: int| 0 <= k < blobs.len() ==> #[trigger] m.contains_key(blobs[k].id)
            &&& forall|w: u64| #[trigger] m.contains_key(w) ==> exists|k: int|
                0 <= k < blobs.len() && blobs[k].id == w && m[w].len == blobs[k].len
                    && m[w].offset % blob_alignment(blobs[k]) == 0
        }),
    decreases blobs.len(),
{
    if blobs.len() > 0 {
        let rest = blobs.drop_last();
        lemma_packing_invariant(rest);
        let (m0, c0) = packing(rest).unwrap();
        let b = blobs.last();
        assert forall|k: int| 0 <= k < rest.len() implies #[trigger] blobs[k] == rest[k] by {}
        if m0.contains_key(b.id) {
            let (m, cursor) = packing(blobs).unwrap();
            assert forall|k: int| 0 <= k < blobs.len() implies #[trigger] m.contains_key(blobs[k].id) by {
                if k < rest.len() {
                    assert(m0.contains_key(rest[k].id));
                }
            }
            assert forall|w: u64| #[trigger] m.contains_key(w) implies exists|k: int|
                0 <= k < blobs.len() && blobs[k].id == w && m[w].len == blobs[k].len
                    && m[w].offset % blob_alignment(blobs[k]) == 0 by {
                let k = choose|k: int|
                    0 <= k < rest.len() && rest[k].id == w && m0[w].len == rest[k].len
                        && m0[w].offset % blob_alignment(rest[k]) == 0;
                assert(blobs[k] == rest[k]);
            }
        } else {
            let a = blob_alignment(b);
            lemma_align_up(c0, a);
            let o = spec_align_up(c0, a).unwrap();
            let m = m0.insert(b.id, Placement { offset: o, len: b.len });
            let cursor = (o + b.len) as usize;
            assert forall|w: u64| #[trigger] m.contains_key(w) implies m[w].offset + m[w].len <= cursor by {
                if w != b.id {
                    assert(m0.contains_key(w));
                }
            }
            assert forall|w: u64, v: u64| #[trigger] m.contains_key(w) && #[trigger] m.contains_key(v) && w != v
                implies m[w].offset + m[w].len <= m[v].offset || m[v].offset + m[v].len <= m[w].offset by {
                if w != b.id && v != b.id {
                    assert(m0.contains_key(w) && m0.contains_key(v));
                } else if w == b.id {
                    assert(m0.contains_key(v));
                } else {
                    assert(m0.contains_key(w));
                }
            }
            assert forall|k: int| 0 <= k < blobs.len() implies #[trigger] m.contains_key(blobs[k].id) by {
                if k < rest.len() {
                    assert(m0.contains_key(rest[k].id));
                }
            }
            assert forall|w: u64| #[trigger] m.contains_key(w) implies exists|k: int|
                0 <= k < blobs.len() && blobs[k].id == w && m[w].len == blobs[k].len
                    && m[w].offset % blob_alignment(blobs[k]) == 0 by {
                if w == b.id {
                    assert(blobs[blobs.len() - 1] == b);
                } else {
                    let k = choose|k: int|
                        0 <= k < rest.len() && rest[k].id == w && m0[w].len == rest[k].len
                            && m0[w].offset % blob_alignment(rest[k]) == 0;
                    assert(blobs[k] == rest[k]);
                }
            }
        }
    }
}

/// Row-major byte strides of a shape whose innermost element takes `unit` bytes, with the
/// byte size of the whole; `None` when a running size overflows `u64`.
pub open spec fn stride_scan(unit: nat, shape: Seq<u64>) -> Option<(Seq<u64>, nat)>
    decreases shape.len(),
{
    if shape.len() == 0 {
        if unit > u64::MAX {
            None
        } else {
            Some((Seq::empty(), unit))
        }
    } else {
        match stride_scan(unit, shape.drop_first()) {
            None => None,
            Some((st, run)) => if run * shape[0] > u64::MAX {
                None
            } else {
                Some((seq![run as u64] + st, (run * shape[0]) as nat))
            },
        }
    }
}

/// The descriptor of a plan tensor: the last one with its id.
pub open spec fn descriptor_of(tensors: Seq<PlanTensorDesc>, id: PlanTensorId) -> Option<PlanTensorDesc>
    decreases tensors.len(),
{
    if tensors.len() == 0 {
        None
    } else if tensors.last().id == id {
        Some(tensors.last())
    } else {
        descriptor_of(tensors.drop_last(), id)
    }
}

/// A tensor of the static activation arena, resolved to its place and strides.
#[derive(Debug, Clone)]
pub struct ArenaTensor {
    /// The tensor.
    pub tensor: PlanTensorId,
    /// Byte offset in the arena.
    pub offset_bytes: usize,
    /// Element type.
    pub dtype: DType,
    /// Shape.
    pub shape: Vec<u64>,
    /// Row-major byte strides.
    pub strides: Vec<u64>,
}

/// Why an arena slot cannot be resolved, if it cannot: no descriptor, a quantized type,
/// or strides that overflow.
pub open spec fn slot_refusal(slot: ArenaSlot, tensors: Seq<PlanTensorDesc>) -> Option<Seq<char>> {
    match descriptor_of(tensors, slot.tensor) {
        None => Some("arena slot has no tensor descriptor"@),
        Some(d) => if d.dtype.spec_is_quantized() {
            Some("quantized values are model allocations, not strided activation arena tensors"@)
        } else if stride_scan(d.dtype.spec_bytes_per_block(), d.shape@) is None {
            Some("device tensor stride overflow"@)
        } else {
            None
        },
    }
}

/// An arena tensor resolves a slot when it has the slot's tensor and offset and its
/// descriptor's type, shape and strides.
pub open spec fn resolves(t: ArenaTensor, slot: ArenaSlot, tensors: Seq<PlanTensorDesc>) -> bool {
    match descriptor_of(tensors, slot.tensor) {
        None => false,
        Some(d) => {
            &&& t.tensor == slot.tensor
            &&& t.offset_bytes == slot.offset
            &&& t.dtype == d.dtype
            &&& t.shape@ == d.shape@
            &&& stride_scan(d.dtype.spec_bytes_per_block(), d.shape@) matches Some((st, _)) && t.strides@ == st
        },
    }
}

fn find_descriptor(tensors: &[PlanTensorDesc], id: PlanTensorId) -> (r: Option<usize>)
    ensures
        match descriptor_of(tensors@, id) {
            None => r is None,
            Some(d) => r matches Some(i) && i < tensors@.len() && tensors@[i as int] == d,
        },
{
    let mut k: usize = tensors.len();
    assert(tensors@.take(k as int) =~= tensors@);
    while k > 0
        invariant
            k <= tensors@.len(),
            descriptor_of(tensors@, id) == descriptor_of(tensors@.take(k as int), id),
        decreases k,
    {
        proof {
            assert(tensors@.take(k as int).drop_last() =~= tensors@.take(k - 1));
            assert(tensors@.take(k as int).last() == tensors@[k - 1]);
        }
        if tensors[k - 1].id == id {
            return Some(k - 1);
        }
        k = k - 1;
    }
    proof {
        assert(tensors@.take(0) =~= Seq::<PlanTensorDesc>::empty());
    }
    None
}

proof fn lemma_stride_scan_step(unit: nat, shape: Seq<u64>, i: int)
    requires
        0 <= i < shape.len(),
        stride_scan(unit, shape.skip(i + 1)) is Some,
    ensures
        stride_scan(unit, shape.skip(i)) == match stride_scan(unit, shape.skip(i + 1)) {
            Some((st, run)) => if run * shape[i] > u64::MAX {
                None
            } else {
                Some((seq![run as u64] + st, (run * shape[i]) as nat))
            },
            None => None,
        },
{
    assert(shape.skip(i).drop_first() =~= shape.skip(i + 1));
    assert(shape.skip(i)[0] == shape[i]);
}

fn byte_strides(unit: usize, shape: &Vec<u64>) -> (r: Option<Vec<u64>>)
    ensures
        match stride_scan(unit as nat, shape@) {
            None => r is None,
            Some((st, _)) => r matches Some(v) && v@ == st,
        },
{
    let n = shape.len();
    if unit as u128 > u64::MAX as u128 {
        proof {
            assert(shape@.skip(n as int) =~= Seq::<u64>::empty());
            lemma_scan_none_propagates(unit as nat, shape@, n as int);
        }
        return None;
    }
    let mut strides: Vec<u64> = Vec::new();
    let mut stride: u64 = unit as u64;
    let mut k: usize = n;
    proof {
        assert(shape@.skip(n as int) =~= Seq::<u64>::empty());
    }
    while k > 0
        invariant
            k <= n,
            n == shape@.len(),
            stride_scan(unit as nat, shape@.skip(k as int)) == Some((strides@, stride as nat)),
        decreases k,
    {
        let d = shape[k - 1];
        proof {
            lemma_stride_scan_step(unit as nat, shape@, k - 1);
        }
        match stride.checked_mul(d) {
            Some(next) => {
                let ghost prev = strides@;
                let mut fresh: Vec<u64> = Vec::new();
                fresh.push(stride);
                let mut tail = strides;
                fresh.append(&mut tail);
                proof {
                    assert(fresh@ =~= seq![stride] + prev);
                }
                strides = fresh;
                stride = next;
            },
            None => {
                proof {
                    lemma_scan_none_propagates(unit as nat, shape@, k - 1);
                }
                return None;
            },
        }
        k = k - 1;
    }
    proof {
        assert(shape@.skip(0) =~= shape@);
    }
    Some(strides)
}

proof fn lemma_scan_none_propagates(unit: nat, shape: Seq<u64>, i: int)
    requires
        0 <= i <= shape.len(),
        stride_scan(unit, shape.skip(i)) is None,
    ensures
        stride_scan(unit, shape) is None,
    decreases i,
{
    if i > 0 {
        assert(shape.skip(i - 1).drop_first() =~= shape.skip(i));
        lemma_scan_none_propagates(unit, shape, i - 1);
    } else {
        assert(shape.skip(0) =~= shape);
    }
}

/// Resolve every slot of the static arena to its tensor's offset and strides, in order;
/// the first slot that cannot be resolved fails.
pub fn resolve_arena(slots: &[ArenaSlot], tensors: &[PlanTensorDesc]) -> (r: Result<Vec<ArenaTensor>, FellmError>)
    ensures
        r is Ok <==> forall|i: int| 0 <= i < slots@.len() ==> slot_refusal(#[trigger] slots@[i], tensors@) is None,
        r matches Ok(v) ==> v@.len() == slots@.len() && forall|i: int| 0 <= i < slots@.len() ==> resolves(
            #[trigger] v@[i],
            slots@[i],
            tensors@,
        ),
        r matches Err(e) ==> exists|i: int|
            0 <= i < slots@.len() && (forall|j: int| 0 <= j < i ==> slot_refusal(#[trigger] slots@[j], tensors@) is None)
                && (slot_refusal(#[trigger] slots@[i], tensors@) matches Some(m) && e matches FellmError::Other(x)
                && x@ == m),
{
    let mut out: Vec<ArenaTensor> = Vec::new();
    let mut i: usize = 0;
    while i < slots.len()
        invariant
            i <= slots@.len(),
            out@.len() == i,
            forall|j: int| 0 <= j < i ==> slot_refusal(#[trigger] slots@[j], tensors@) is None,
            forall|j: int| 0 <= j < i ==> resolves(#[trigger] out@[j], slots@[j], tensors@),
        decreases slots@.len() - i,
    {
        let slot = slots[i];
        let d = match find_descriptor(tensors, slot.tensor) {
            Some(k) => &tensors[k],
            None => {
                return Err(FellmError::other("arena slot has no tensor descriptor"));
            },
        };
        if d.dtype.is_quantized() {
            return Err(FellmError::other("quantized values are model allocations, not strided activation arena tensors"));
        }
        let strides = match byte_strides(d.dtype.bytes_per_block(), &d.shape) {
            Some(s) => s,
            None => {
                return Err(FellmError::other("device tensor stride overflow"));
            },
        };
        let shape = vstd::slice::slice_to_vec(d.shape.as_slice());
        out.push(ArenaTensor { tensor: slot.tensor, offset_bytes: slot.offset, dtype: d.dtype, shape, strides });
        i = i + 1;
    }
    Ok(out)
}

} // verus!

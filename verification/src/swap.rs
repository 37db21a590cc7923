//! Bookkeeping of the page-locked host swap for preempted device KV blocks: which swap
//! slot holds which physical block, and which slots are free. The block copies are made
//! by the caller, at the byte offsets handed out here, between the two steps of a swap.
use vstd::prelude::*;

use std::collections::HashMap;

use crate::error::FellmError;

verus! {

/// Slots of a swap arena of `n_slots` slots, as their ids.
pub open spec fn slot_ids(n: nat) -> Set<u32> {
    Set::new(|s: u32| (s as nat) < n)
}

/// A slot reserved for one copy, and the byte offset of its block in the pinned memory.
#[derive(Debug, Clone, Copy, PartialEq, Eq, Structural)]
pub struct SwapCopy {
    /// Swap slot.
    pub slot: u32,
    /// Byte offset of the slot's block.
    pub offset: usize,
}

/// Page-locked host swap for preempted device blocks.
#[derive(Debug)]
pub struct PinnedSwapArena {
    block_bytes: usize,
    n_slots: usize,
    free_slots: Vec<u32>,
    map: HashMap<u32, u32>,
}

impl PinnedSwapArena {
    /// Bytes per block.
    pub closed spec fn spec_block_bytes(&self) -> nat {
        self.block_bytes as nat
    }

    /// Number of slots.
    pub closed spec fn spec_n_slots(&self) -> nat {
        self.n_slots as nat
    }

    /// The free slots, the last one handed out first.
    pub closed spec fn free(&self) -> Seq<u32> {
        self.free_slots@
    }

    /// Which slot holds each swapped-out physical block.
    pub closed spec fn swapped(&self) -> Map<u32, u32> {
        self.map@
    }

    /// The slots neither free nor holding a block: reserved for a copy in progress, or
    /// lost to a copy that failed.
    pub open spec fn in_flight(&self, s: u32) -> bool {
        &&& slot_ids(self.spec_n_slots()).contains(s)
        &&& !self.free().contains(s)
        &&& !self.swapped().values().contains(s)
    }

    /// Every slot id is below the slot count; a slot is free at most once, and never both
    /// free and holding a block; no two blocks share a slot; the arena's bytes fit a `usize`.
    pub open spec fn wf(&self) -> bool {
        &&& self.spec_block_bytes() > 0
        &&& 1 <= self.spec_n_slots() <= 0x1_0000_0000
        &&& self.spec_n_slots() * self.spec_block_bytes() <= usize::MAX
        &&& self.free().no_duplicates()
        &&& forall|i: int| 0 <= i < self.free().len() ==> (#[trigger] self.free()[i] as nat) < self.spec_n_slots()
        &&& forall|p: u32| #[trigger] self.swapped().contains_key(p) ==> (self.swapped()[p] as nat) < self.spec_n_slots()
            && !self.free().contains(self.swapped()[p])
        &&& forall|p: u32, q: u32| #![trigger self.swapped()[p], self.swapped()[q]]
            self.swapped().contains_key(p) && self.swapped().contains_key(q) && p != q
                ==> self.swapped()[p] != self.swapped()[q]
    }

    /// An arena of `max(n_slots, 1)` free slots of `block_bytes` bytes each, slot 0 handed
    /// out first; its pinned memory takes `total_bytes` bytes.
    pub fn new(n_slots: usize, block_bytes: usize) -> (r: Result<PinnedSwapArena, FellmError>)
        requires
            n_slots <= 0x1_0000_0000,
        ensures
            block_bytes == 0 ==> (r matches Err(FellmError::Other(m))
                && m@ == "PinnedSwapArena: block_bytes must be > 0"@),
            block_bytes > 0 && (if n_slots == 0 { 1 } else { n_slots }) * block_bytes > usize::MAX
                ==> (r matches Err(FellmError::Other(m)) && m@ == "PinnedSwapArena: size overflow"@),
            r is Ok <==> block_bytes > 0 && (if n_slots == 0 { 1 } else { n_slots }) * block_bytes <= usize::MAX,
            r matches Ok(a) ==> {
                &&& a.wf()
                &&& a.spec_block_bytes() == block_bytes
                &&& a.spec_n_slots() == if n_slots == 0 { 1 } else { n_slots }
                &&& a.free() == Seq::new(a.spec_n_slots(), |i: int| (a.spec_n_slots() - 1 - i) as u32)
                &&& a.swapped().is_empty()
            },
    {
        if block_bytes == 0 {
            return Err(FellmError::other("PinnedSwapArena: block_bytes must be > 0"));
        }
        let n = if n_slots == 0 { 1 } else { n_slots };
        if n > usize::MAX / block_bytes {
            proof {
                assert(n * block_bytes > usize::MAX) by (nonlinear_arith)
                    requires
                        n > usize::MAX / block_bytes,
                        block_bytes > 0,
                ;
            }
            return Err(FellmError::other("PinnedSwapArena: size overflow"));
        }
        proof {
            assert(n * block_bytes <= usize::MAX) by (nonlinear_arith)
                requires
                    n <= usize::MAX / block_bytes,
                    block_bytes > 0,
            ;
        }
        let mut free_slots: Vec<u32> = Vec::new();
        let mut i: usize = n;
        while i > 0
            invariant
                i <= n,
                n <= 0x1_0000_0000,
                free_slots@.len() == n - i,
                forall|k: int| 0 <= k < free_slots@.len() ==> #[trigger] free_slots@[k] == (n - 1 - k) as u32,
            decreases i,
        {
            i = i - 1;
            free_slots.push(i as u32);
        }
        let a = PinnedSwapArena { block_bytes, n_slots: n, free_slots, map: HashMap::new() };
        proof {
            assert(a.free() =~= Seq::new(n as nat, |k: int| (n - 1 - k) as u32));
            assert forall|x: int, y: int| 0 <= x < y < a.free().len() implies a.free()[x] != a.free()[y] by {
                assert(a.free()[x] == (n - 1 - x) as u32);
                assert(a.free()[y] == (n - 1 - y) as u32);
            }
        }
        Ok(a)
    }

    /// Bytes of pinned memory the arena needs: one block per slot.
    pub fn total_bytes(&self) -> (b: usize)
        requires
            self.wf(),
        ensures
            b == self.spec_n_slots() * self.spec_block_bytes(),
    {
        self.n_slots * self.block_bytes
    }

    /// Bytes per block.
    pub fn block_bytes(&self) -> (b: usize)
        ensures
            b == self.spec_block_bytes(),
    {
        self.block_bytes
    }

    /// Free swap slots remaining.
    pub fn free_count(&self) -> (n: usize)
        ensures
            n == self.free().len(),
    {
        self.free_slots.len()
    }

    /// Whether this physical block is currently in swap.
    pub fn contains(&self, physical_id: u32) -> (b: bool)
        ensures
            b == self.swapped().contains_key(physical_id),
    {
        self.map.contains_key(&physical_id)
    }

    /// First step of moving a device block out to swap. A block already in swap needs no
    /// copy (`None`). Otherwise the last free slot is reserved and handed back with the
    /// offset its copy goes to; with no free slot the swap fails.
    pub fn reserve_swap_out(&mut self, physical_id: u32) -> (r: Result<Option<SwapCopy>, FellmError>)
        requires
            old(self).wf(),
        ensures
            final(self).wf(),
            final(self).spec_n_slots() == old(self).spec_n_slots(),
            final(self).spec_block_bytes() == old(self).spec_block_bytes(),
            final(self).swapped() == old(self).swapped(),
            old(self).swapped().contains_key(physical_id) ==> (r matches Ok(None)) && final(self).free() == old(
                self,
            ).free(),
            !old(self).swapped().contains_key(physical_id) && old(self).free().len() == 0 ==> (r matches Err(
                FellmError::Other(m),
            ) && m@ == "PinnedSwapArena: out of swap slots"@) && final(self).free() == old(self).free(),
            !old(self).swapped().contains_key(physical_id) && old(self).free().len() > 0 ==> (r matches Ok(Some(c))
                && c == (SwapCopy {
                    slot: old(self).free().last(),
                    offset: (old(self).free().last() * old(self).spec_block_bytes()) as usize,
                })) && final(self).free() == old(self).free().drop_last() && final(self).in_flight(
                old(self).free().last(),
            ),
    {
        if self.map.contains_key(&physical_id) {
            return Ok(None);
        }
        match self.free_slots.pop() {
            Some(slot) => {
                proof {
                    let f = old(self).free();
                    let o = old(self).swapped();
                    assert(self.swapped() == o);
                    assert(f.last() == slot);
                    assert(self.free() =~= f.drop_last());
                    assert(f.contains(slot)) by {
                        assert(f[f.len() - 1] == slot);
                    }
                    assert(!self.free().contains(slot)) by {
                        if self.free().contains(slot) {
                            let k = choose|k: int| 0 <= k < self.free().len() && self.free()[k] == slot;
                            assert(f[k] == f[f.len() - 1]);
                        }
                    }
                    assert forall|p: u32| #[trigger] o.contains_key(p) implies o[p] != slot && !self.free().contains(
                        o[p],
                    ) by {
                        assert(!f.contains(o[p]));
                        if self.free().contains(o[p]) {
                            let k = choose|k: int| 0 <= k < self.free().len() && self.free()[k] == o[p];
                            assert(f[k] == o[p]);
                        }
                    }
                    assert(!self.swapped().values().contains(slot));
                    assert((slot as nat) < self.spec_n_slots()) by {
                        assert(f[f.len() - 1] == slot);
                    }
                    assert(slot * self.spec_block_bytes() <= self.spec_n_slots() * self.spec_block_bytes())
                        by (nonlinear_arith)
                        requires
                            (slot as nat) < self.spec_n_slots(),
                    ;
                }
                let offset = (slot as usize) * self.block_bytes;
                Ok(Some(SwapCopy { slot, offset }))
            },
            None => {
                assert(self.free() =~= old(self).free());
                assert(self.swapped() == old(self).swapped());
                Err(FellmError::other("PinnedSwapArena: out of swap slots"))
            },
        }
    }

    /// Second step of moving a device block out: once its copy has landed in the
    /// reserved slot, the block is recorded as swapped out there.
    pub fn commit_swap_out(&mut self, physical_id: u32, copy: SwapCopy)
        requires
            old(self).wf(),
            !old(self).swapped().contains_key(physical_id),
            old(self).in_flight(copy.slot),
        ensures
            final(self).wf(),
            final(self).spec_n_slots() == old(self).spec_n_slots(),
            final(self).spec_block_bytes() == old(self).spec_block_bytes(),
            final(self).free() == old(self).free(),
            final(self).swapped() == old(self).swapped().insert(physical_id, copy.slot),
    {
        self.map.insert(physical_id, copy.slot);
        proof {
            let o = old(self).swapped();
            assert forall|p: u32| #[trigger] o.contains_key(p) implies o[p] != copy.slot by {
                assert(o.values().contains(o[p]));
            }
        }
    }

    /// First step of bringing a swapped-out block back: the block leaves the swap, and its
    /// slot and the offset its copy comes from are handed back; a block not in swap fails.
    pub fn release_swap_in(&mut self, physical_id: u32) -> (r: Result<SwapCopy, FellmError>)
        requires
            old(self).wf(),
        ensures
            final(self).wf(),
            final(self).spec_n_slots() == old(self).spec_n_slots(),
            final(self).spec_block_bytes() == old(self).spec_block_bytes(),
            final(self).free() == old(self).free(),
            !old(self).swapped().contains_key(physical_id) ==> (r matches Err(FellmError::Other(m))
                && m@ == "PinnedSwapArena: unknown physical id"@) && final(self).swapped() == old(self).swapped(),
            old(self).swapped().contains_key(physical_id) ==> (r matches Ok(c) && c == (SwapCopy {
                slot: old(self).swapped()[physical_id],
                offset: (old(self).swapped()[physical_id] * old(self).spec_block_bytes()) as usize,
            })) && final(self).swapped() == old(self).swapped().remove(physical_id) && final(self).in_flight(
                old(self).swapped()[physical_id],
            ),
    {
        match self.map.remove(&physical_id) {
            Some(slot) => {
                proof {
                    let o = old(self).swapped();
                    assert(o.contains_key(physical_id) && o[physical_id] == slot);
                    assert(self.swapped() =~= o.remove(physical_id));
                    assert(self.free() == old(self).free());
                    assert forall|p: u32| #[trigger] self.swapped().contains_key(p) implies (self.swapped()[p] as nat)
                        < self.spec_n_slots() && !self.free().contains(self.swapped()[p]) by {
                        assert(o.contains_key(p));
                    }
                    assert forall|p: u32, q: u32| #![trigger self.swapped()[p], self.swapped()[q]]
                        self.swapped().contains_key(p) && self.swapped().contains_key(q) && p != q
                            implies self.swapped()[p] != self.swapped()[q] by {
                        assert(o.contains_key(p) && o.contains_key(q));
                        assert(o[p] == self.swapped()[p] && o[q] == self.swapped()[q]);
                    }
                    assert(!self.swapped().values().contains(slot)) by {
                        if self.swapped().values().contains(slot) {
                            let p = choose|p: u32| #[trigger] self.swapped().contains_key(p) && self.swapped()[p] == slot;
                            assert(o[p] == o[physical_id]);
                        }
                    }
                    assert(slot * self.spec_block_bytes() <= self.spec_n_slots() * self.spec_block_bytes())
                        by (nonlinear_arith)
                        requires
                            (slot as nat) < self.spec_n_slots(),
                    ;
                }
                let offset = (slot as usize) * self.block_bytes;
                Ok(SwapCopy { slot, offset })
            },
            None => {
                assert(self.swapped() =~= old(self).swapped());
                Err(FellmError::other("PinnedSwapArena: unknown physical id"))
            },
        }
    }

    /// Second step of bringing a block back: once its copy has left the slot, the slot is
    /// free again (and handed out next).
    pub fn commit_swap_in(&mut self, copy: SwapCopy)
        requires
            old(self).wf(),
            old(self).in_flight(copy.slot),
        ensures
            final(self).wf(),
            final(self).spec_n_slots() == old(self).spec_n_slots(),
            final(self).spec_block_bytes() == old(self).spec_block_bytes(),
            final(self).swapped() == old(self).swapped(),
            final(self).free() == old(self).free().push(copy.slot),
    {
        self.free_slots.push(copy.slot);
        proof {
            let f = old(self).free();
            let g = self.free();
            assert(g =~= f.push(copy.slot));
            assert forall|x: int, y: int| 0 <= x < y < g.len() implies g[x] != g[y] by {
                if y == g.len() - 1 {
                    assert(f.contains(f[x]));
                }
            }
            assert forall|p: u32| #[trigger] self.swapped().contains_key(p) implies !self.free().contains(
                self.swapped()[p],
            ) by {
                assert(self.swapped().values().contains(self.swapped()[p]));
                if g.contains(self.swapped()[p]) {
                    let k = choose|k: int| 0 <= k < g.len() && g[k] == self.swapped()[p];
                    if k < f.len() {
                        assert(f[k] == self.swapped()[p]);
                    }
                }
            }
        }
    }
}

/// Moving a block out to swap and bringing it straight back leaves the arena as it was.
pub proof fn lemma_swap_round_trip(
    a0: PinnedSwapArena,
    a1: PinnedSwapArena,
    a2: PinnedSwapArena,
    a3: PinnedSwapArena,
    a4: PinnedSwapArena,
    physical_id: u32,
    out: SwapCopy,
    back: SwapCopy,
)
    requires
        a0.wf(),
        !a0.swapped().contains_key(physical_id),
        a0.free().len() > 0,
        out.slot == a0.free().last(),
        a1.free() == a0.free().drop_last(),
        a1.swapped() == a0.swapped(),
        a2.free() == a1.free(),
        a2.swapped() == a1.swapped().insert(physical_id, out.slot),
        back.slot == a2.swapped()[physical_id],
        a3.free() == a2.free(),
        a3.swapped() == a2.swapped().remove(physical_id),
        a4.swapped() == a3.swapped(),
        a4.free() == a3.free().push(back.slot),
    ensures
        back.slot == out.slot,
        a4.free() == a0.free(),
        a4.swapped() == a0.swapped(),
{
    assert(a4.free() =~= a0.free());
    assert(a4.swapped() =~= a0.swapped());
}

} // verus!

//! Host-side books of the device KV paging: the geometry of the device KV arena, and the
//! host mirror of the per-request page table that decode replays read (uploaded only when
//! the allocation topology changes).
use vstd::prelude::*;

use crate::error::FellmError;

verus! {

/// Tokens per physical KV block.
pub const BLOCK_SIZE: usize = 16;

/// The geometry of the device KV arena: `n_blocks` blocks, each holding K and V for
/// [`BLOCK_SIZE`] tokens of `tokens_stride` `f32` values.
#[derive(Debug, Clone, Copy, PartialEq, Eq, Structural)]
pub struct KvArenaGeometry {
    /// Number of physical blocks.
    pub n_blocks: usize,
    /// Bytes per block.
    pub block_bytes: usize,
    /// `f32` values per token row.
    pub tokens_stride: usize,
    /// Bytes of the whole arena.
    pub total_bytes: usize,
}

/// `f32` values per token row: KV heads times head size, each at least 1.
pub open spec fn kv_row(n_kv_heads: nat, head_dim: nat) -> nat {
    (if n_kv_heads == 0 { 1 } else { n_kv_heads }) * (if head_dim == 0 { 1 } else { head_dim })
}

impl KvArenaGeometry {
    /// The geometry of an arena of `n_blocks` blocks; an empty arena or one whose size
    /// overflows is refused.
    pub fn new(n_blocks: usize, n_kv_heads: usize, head_dim: usize) -> (r: Result<KvArenaGeometry, FellmError>)
        requires
            2 * BLOCK_SIZE * kv_row(n_kv_heads as nat, head_dim as nat) * 4 <= usize::MAX,
        ensures
            n_blocks == 0 ==> (r matches Err(FellmError::Other(m)) && m@ == "DeviceKvArena: n_blocks must be > 0"@),
            n_blocks > 0 && n_blocks * (2 * BLOCK_SIZE * kv_row(n_kv_heads as nat, head_dim as nat) * 4) > usize::MAX
                ==> (r matches Err(FellmError::Other(m)) && m@ == "DeviceKvArena: size overflow"@),
            r matches Ok(g) ==> {
                &&& g.n_blocks == n_blocks
                &&& g.tokens_stride == kv_row(n_kv_heads as nat, head_dim as nat)
                &&& g.block_bytes == 2 * BLOCK_SIZE * g.tokens_stride * 4
                &&& g.total_bytes == n_blocks * g.block_bytes
            },
            r is Ok <==> n_blocks > 0 && n_blocks * (2 * BLOCK_SIZE * kv_row(n_kv_heads as nat, head_dim as nat) * 4)
                <= usize::MAX,
    {
        if n_blocks == 0 {
            return Err(FellmError::other("DeviceKvArena: n_blocks must be > 0"));
        }
        let h = if n_kv_heads == 0 { 1 } else { n_kv_heads };
        let d = if head_dim == 0 { 1 } else { head_dim };
        proof {
            assert(h * d <= 2 * 16 * (h * d) * 4) by (nonlinear_arith)
                requires
                    h >= 1,
                    d >= 1,
            ;
        }
        let tokens_stride = h * d;
        let block_bytes = 2 * BLOCK_SIZE * tokens_stride * 4;
        match n_blocks.checked_mul(block_bytes) {
            Some(total) => Ok(KvArenaGeometry { n_blocks, block_bytes, tokens_stride, total_bytes: total }),
            None => Err(FellmError::other("DeviceKvArena: size overflow")),
        }
    }
}

/// `a * b`, or `usize::MAX` when that overflows.
pub open spec fn saturating_product(a: usize, b: usize) -> nat {
    if a * b > usize::MAX {
        usize::MAX as nat
    } else {
        (a * b) as nat
    }
}

/// The page table spread out for upload: layer `l`'s `n_logical` entries start at
/// `l * stride`; every other entry is `u32::MAX`.
pub open spec fn spread(table: Seq<u32>, n_logical: nat, stride: nat, capacity: nat) -> Seq<u32> {
    Seq::new(
        capacity,
        |i: int|
            if stride > 0 && i % (stride as int) < n_logical && (i / (stride as int)) * n_logical + i % (stride as int)
                < table.len() {
                table[(i / (stride as int)) * n_logical + i % (stride as int)]
            } else {
                u32::MAX
            },
    )
}

/// Host mirror of the fixed-capacity device page table.
pub struct PageTableMirror {
    capacity: usize,
    stride: usize,
    upload: Vec<u32>,
    shadow: Vec<u32>,
}

impl PageTableMirror {
    /// Entries of the device table.
    pub closed spec fn spec_capacity(&self) -> nat {
        self.capacity as nat
    }

    /// Entries between adjacent layers.
    pub closed spec fn spec_stride(&self) -> nat {
        self.stride as nat
    }

    /// The entries prepared for upload.
    pub closed spec fn staged(&self) -> Seq<u32> {
        self.upload@
    }

    /// The compact table last uploaded.
    pub closed spec fn uploaded(&self) -> Seq<u32> {
        self.shadow@
    }

    /// The staged entries fill the device table.
    pub closed spec fn wf(&self) -> bool {
        self.upload@.len() == self.capacity
    }

    /// A mirror of `capacity` entries, split evenly between `layers` layers (at least 1),
    /// all unset (`u32::MAX`), with nothing uploaded yet.
    pub fn new(capacity: usize, layers: usize) -> (m: PageTableMirror)
        ensures
            m.wf(),
            m.spec_capacity() == capacity,
            m.spec_stride() == capacity / (if layers == 0 { 1 } else { layers }),
            m.staged() == Seq::new(capacity as nat, |i: int| u32::MAX),
            m.uploaded() == Seq::<u32>::empty(),
    {
        let mut upload: Vec<u32> = Vec::new();
        let mut i: usize = 0;
        while i < capacity
            invariant
                i <= capacity,
                upload@ == Seq::new(i as nat, |k: int| u32::MAX),
            decreases capacity - i,
        {
            upload.push(u32::MAX);
            proof {
                assert(upload@ =~= Seq::new((i + 1) as nat, |k: int| u32::MAX));
            }
            i = i + 1;
        }
        let l = if layers == 0 { 1 } else { layers };
        PageTableMirror { capacity, stride: capacity / l, upload, shadow: Vec::new() }
    }

    /// Entries between adjacent layers.
    pub fn stride(&self) -> (n: usize)
        ensures
            n == self.spec_stride(),
    {
        self.stride
    }

    /// The entries to upload.
    pub fn staged_entries(&self) -> (s: &[u32])
        ensures
            s@ == self.staged(),
    {
        self.upload.as_slice()
    }

    /// Prepare the upload of a compact page table of `n_layers` layers of `n_logical`
    /// entries. A table longer than the device table is refused; one equal to the table
    /// last uploaded needs no upload (`false`); otherwise the dimensions must match the
    /// table and fit the layer stride, and the table is spread out for upload (`true`).
    pub fn prepare(&mut self, table: &[u32], n_layers: usize, n_logical: usize) -> (r: Result<bool, FellmError>)
        requires
            old(self).wf(),
            table@.len() < usize::MAX,
            table@.len() <= old(self).spec_capacity() && table@ != old(self).uploaded() && table@.len()
                == saturating_product(n_layers, n_logical) && n_logical <= old(self).spec_stride() && n_layers > 0
                ==> (n_layers - 1) * old(self).spec_stride() + n_logical <= old(self).spec_capacity(),
        ensures
            final(self).wf(),
            final(self).spec_capacity() == old(self).spec_capacity(),
            final(self).spec_stride() == old(self).spec_stride(),
            final(self).uploaded() == old(self).uploaded(),
            table@.len() > old(self).spec_capacity() ==> r matches Err(FellmError::Other(_)),
            table@.len() <= old(self).spec_capacity() && table@ == old(self).uploaded() ==> r == Ok::<bool, FellmError>(
                false,
            ) && final(self).staged() == old(self).staged(),
            table@.len() <= old(self).spec_capacity() && table@ != old(self).uploaded() ==> if table@.len()
                == saturating_product(n_layers, n_logical) && n_logical <= old(self).spec_stride() {
                r == Ok::<bool, FellmError>(true) && final(self).staged() == spread(
                    table@,
                    n_logical as nat,
                    old(self).spec_stride(),
                    old(self).spec_capacity(),
                )
            } else {
                r matches Err(FellmError::Other(m)) && m@ == "invalid compact page-table dimensions"@
            },
    {
        if table.len() > self.capacity {
            return Err(FellmError::Other(capacity_exceeded_message(table.len(), self.capacity)));
        }
        if slices_equal(self.shadow.as_slice(), table) {
            return Ok(false);
        }
        let product = if n_logical != 0 && n_layers > usize::MAX / n_logical {
            proof {
                assert(n_layers * n_logical > usize::MAX) by (nonlinear_arith)
                    requires
                        n_logical != 0,
                        n_layers > usize::MAX / n_logical,
                ;
            }
            usize::MAX
        } else {
            proof {
                assert(n_logical == 0 ==> n_layers * n_logical == 0) by (nonlinear_arith);
                assert(n_logical != 0 ==> n_layers * n_logical <= usize::MAX) by (nonlinear_arith)
                    requires
                        n_logical != 0 ==> n_layers <= usize::MAX / n_logical,
                ;
            }
            n_layers * n_logical
        };
        if table.len() != product || n_logical > self.stride {
            return Err(FellmError::other("invalid compact page-table dimensions"));
        }
        let n = self.capacity;
        let stride = self.stride;
        let mut i: usize = 0;
        while i < n
            invariant
                i <= n,
                n == self.capacity,
                self.upload@.len() == n,
                stride == self.stride,
                stride == old(self).stride,
                n == old(self).capacity,
                self.shadow@ == old(self).shadow@,
                forall|k: int| 0 <= k < i ==> #[trigger] self.upload@[k] == u32::MAX,
            decreases n - i,
        {
            self.upload.set(i, u32::MAX);
            i = i + 1;
        }
        let mut layer: usize = 0;
        while layer < n_layers
            invariant
                layer <= n_layers,
                n == self.capacity,
                self.upload@.len() == n,
                stride == self.stride,
                stride == old(self).stride,
                n == old(self).capacity,
                self.shadow@ == old(self).shadow@,
                n_logical <= stride,
                table@.len() < usize::MAX,
                table@.len() == n_layers * n_logical,
                n_layers > 0 ==> (n_layers - 1) * stride + n_logical <= n,
                forall|k: int| 0 <= k < n ==> #[trigger] self.upload@[k] == if stride > 0 && k / (stride as int) < layer
                    && k % (stride as int) < n_logical {
                    table@[(k / (stride as int)) * n_logical + k % (stride as int)]
                } else {
                    u32::MAX
                },
            decreases n_layers - layer,
        {
            proof {
                assert(layer * stride + n_logical <= (n_layers - 1) * stride + n_logical) by (nonlinear_arith)
                    requires
                        layer < n_layers,
                ;
                assert(layer * n_logical + n_logical <= n_layers * n_logical) by (nonlinear_arith)
                    requires
                        layer < n_layers,
                ;
            }
            let start = layer * stride;
            let base = layer * n_logical;
            let mut j: usize = 0;
            while j < n_logical
                invariant
                    j <= n_logical,
                    layer < n_layers,
                    start == layer * stride,
                    base == layer * n_logical,
                    start + n_logical <= n,
                    base + n_logical <= table@.len(),
                    n == self.capacity,
                    self.upload@.len() == n,
                    stride == self.stride,
                    stride == old(self).stride,
                    n == old(self).capacity,
                    self.shadow@ == old(self).shadow@,
                    n_logical <= stride,
                    table@.len() < usize::MAX,
                    table@.len() == n_layers * n_logical,
                    n_layers > 0 ==> (n_layers - 1) * stride + n_logical <= n,
                    forall|k: int| 0 <= k < n ==> #[trigger] self.upload@[k] == if stride > 0 && (k / (stride as int)
                        < layer || (k / (stride as int) == layer && k % (stride as int) < j)) && k % (stride as int)
                        < n_logical {
                        table@[(k / (stride as int)) * n_logical + k % (stride as int)]
                    } else {
                        u32::MAX
                    },
                decreases n_logical - j,
            {
                let ghost before = self.upload@;
                self.upload.set(start + j, table[base + j]);
                proof {
                    let p = (start + j) as int;
                    assert(stride > 0);
                    assert(p / (stride as int) == layer && p % (stride as int) == j) by (nonlinear_arith)
                        requires
                            p == layer * stride + j,
                            j < stride,
                            stride > 0,
                    ;
                    assert forall|k: int| 0 <= k < n implies #[trigger] self.upload@[k] == if stride > 0 && (k / (
                    stride as int) < layer || (k / (stride as int) == layer && k % (stride as int) < j + 1)) && k % (
                    stride as int) < n_logical {
                        table@[(k / (stride as int)) * n_logical + k % (stride as int)]
                    } else {
                        u32::MAX
                    } by {
                        if k != p {
                            assert(self.upload@[k] == before[k]);
                            if k / (stride as int) == layer && k % (stride as int) == j {
                                assert(k == (k / (stride as int)) * stride + k % (stride as int)) by (nonlinear_arith)
                                    requires
                                        stride > 0,
                                ;
                            }
                        }
                    }
                }
                j = j + 1;
            }
            proof {
                assert forall|k: int| 0 <= k < n implies #[trigger] self.upload@[k] == if stride > 0 && k / (
                stride as int) < layer + 1 && k % (stride as int) < n_logical {
                    table@[(k / (stride as int)) * n_logical + k % (stride as int)]
                } else {
                    u32::MAX
                } by {}
            }
            layer = layer + 1;
        }
        proof {
            assert forall|k: int| 0 <= k < n implies #[trigger] self.upload@[k] == spread(table@, n_logical as nat, stride as nat, n as nat)[k] by {
                if stride > 0 && k % (stride as int) < n_logical {
                    let q = k / (stride as int);
                    let r = k % (stride as int);
                    if q < n_layers {
                        assert(q * n_logical + r < n_layers * n_logical) by (nonlinear_arith)
                            requires
                                q < n_layers,
                                r < n_logical,
                                q >= 0,
                                r >= 0,
                        ;
                    } else {
                        assert(q * n_logical + r >= n_layers * n_logical) by (nonlinear_arith)
                            requires
                                q >= n_layers,
                                r >= 0,
                        ;
                    }
                }
            }
            assert(self.upload@ =~= spread(table@, n_logical as nat, stride as nat, n as nat));
        }
        Ok(true)
    }

    /// Record that the prepared table was uploaded.
    pub fn commit(&mut self, table: &[u32])
        ensures
            final(self).uploaded() == table@,
            final(self).staged() == old(self).staged(),
            final(self).spec_capacity() == old(self).spec_capacity(),
            final(self).spec_stride() == old(self).spec_stride(),
            old(self).wf() ==> final(self).wf(),
    {
        self.shadow = vstd::slice::slice_to_vec(table);
    }
}

/// Message for a page table that does not fit the device table.
#[verifier::external_body]
fn capacity_exceeded_message(len: usize, capacity: usize) -> String {
    format!("device page table capacity exceeded: {} > {}", len, capacity)
}

fn slices_equal(a: &[u32], b: &[u32]) -> (r: bool)
    ensures
        r == (a@ == b@),
{
    if a.len() != b.len() {
        return false;
    }
    let mut i: usize = 0;
    while i < a.len()
        invariant
            i <= a@.len(),
            a@.len() == b@.len(),
            forall|k: int| 0 <= k < i ==> a@[k] == b@[k],
        decreases a@.len() - i,
    {
        if a[i] != b[i] {
            return false;
        }
        i = i + 1;
    }
    assert(a@ =~= b@);
    true
}

} // verus!

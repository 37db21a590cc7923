//! Shapes and strides, held in small inline vectors of dimensions.
use vstd::prelude::*;

use smallvec::SmallVec;

use crate::dtype::DType;
use crate::error::{FellmError, Result};

verus! {

/// Maximum tensor rank supported. GGUF caps at 4; one more is allowed for
/// internal scratch (e.g. batched attention).
pub const MAX_RANK: usize = 5;

/// An inline vector of up to [`MAX_RANK`] dimensions (spilling to the heap beyond that),
/// held opaquely: its contents are known only through [`dims_of`].
#[verifier::external_body]
#[derive(Debug)]
pub struct DimVec {
    inner: SmallVec<[u64; 5]>,
}

/// The elements held by a small vector of dimensions.
pub uninterp spec fn dims_of(v: DimVec) -> Seq<u64>;

/// `SmallVec::new`: an empty vector.
#[verifier::external_body]
fn dims_new() -> (v: DimVec)
    ensures
        dims_of(v) == Seq::<u64>::empty(),
{
    DimVec { inner: SmallVec::new() }
}

/// `SmallVec::from_slice`: a vector holding a copy of `s`.
#[verifier::external_body]
fn dims_from_slice(s: &[u64]) -> (v: DimVec)
    ensures
        dims_of(v) == s@,
{
    DimVec { inner: SmallVec::from_slice(s) }
}

/// `SmallVec::as_slice`: the elements as a slice.
#[verifier::external_body]
fn dims_as_slice(v: &DimVec) -> (s: &[u64])
    ensures
        s@ == dims_of(*v),
{
    v.inner.as_slice()
}

/// `SmallVec::resize`: truncate, or extend with copies of `value`, to length `len`.
#[verifier::external_body]
fn dims_resize(v: &mut DimVec, len: usize, value: u64)
    ensures
        dims_of(*final(v)).len() == len,
        forall|i: int| 0 <= i < len ==> #[trigger] dims_of(*final(v))[i] == if i < dims_of(*old(v)).len() {
            dims_of(*old(v))[i]
        } else {
            value
        },
{
    v.inner.resize(len, value)
}

/// `IndexMut` on a `SmallVec`: overwrite the element at `i`.
#[verifier::external_body]
fn dims_set(v: &mut DimVec, i: usize, value: u64)
    requires
        i < dims_of(*old(v)).len(),
    ensures
        dims_of(*final(v)) == dims_of(*old(v)).update(i as int, value),
{
    v.inner[i] = value;
}

/// `SmallVec::clone`: an equal copy.
#[verifier::external_body]
fn dims_clone(v: &DimVec) -> (c: DimVec)
    ensures
        dims_of(c) == dims_of(*v),
{
    DimVec { inner: v.inner.clone() }
}

/// Product of a sequence of dimensions (1 for the empty sequence).
pub open spec fn product(s: Seq<u64>) -> nat
    decreases s.len(),
{
    if s.len() == 0 {
        1
    } else {
        s[0] as nat * product(s.drop_first())
    }
}

/// Row-major (C-order) strides in elements: each dimension's stride is the product of
/// the dimensions after it.
pub open spec fn row_major(dims: Seq<u64>) -> Seq<nat> {
    Seq::new(dims.len(), |i: int| product(dims.skip(i + 1)))
}

/// `strides` are exactly the row-major strides of `dims`.
pub open spec fn is_row_major(strides: Seq<u64>, dims: Seq<u64>) -> bool {
    &&& strides.len() == dims.len()
    &&& forall|i: int| 0 <= i < strides.len() ==> #[trigger] strides[i] == row_major(dims)[i]
}

/// Every product of a leading run of dimensions fits in a `u64` (so multiplying the
/// dimensions left to right never overflows).
pub open spec fn prefix_products_fit(dims: Seq<u64>) -> bool {
    forall|i: int| 0 <= i <= dims.len() ==> #[trigger] product(dims.take(i)) <= u64::MAX
}

/// Every product of a trailing run of dimensions (after the first) fits in a `u64` (so the
/// row-major strides, built right to left, never overflow).
pub open spec fn strides_fit(dims: Seq<u64>) -> bool {
    forall|i: int| 1 <= i <= dims.len() ==> #[trigger] product(dims.skip(i)) <= u64::MAX
}

/// A shape: up to [`MAX_RANK`] dimensions.
#[derive(Debug)]
pub struct Shape(DimVec);

impl Shape {
    /// The dimensions.
    pub closed spec fn spec_dims(&self) -> Seq<u64> {
        dims_of(self.0)
    }

    #[verifier::type_invariant]
    spec fn rank_bounded(&self) -> bool {
        dims_of(self.0).len() <= MAX_RANK
    }

    /// Construct a shape from a slice.
    pub fn new(dims: &[u64]) -> (r: Result<Shape>)
        ensures
            dims@.len() > MAX_RANK ==> (r matches Err(FellmError::RankTooHigh(n)) && n == dims@.len()),
            dims@.len() <= MAX_RANK ==> (r matches Ok(s) && s.spec_dims() == dims@),
    {
        if dims.len() > MAX_RANK {
            return Err(FellmError::RankTooHigh(dims.len()));
        }
        Ok(Shape(dims_from_slice(dims)))
    }

    /// Scalar shape.
    pub fn scalar() -> (s: Shape)
        ensures
            s.spec_dims() == Seq::<u64>::empty(),
    {
        Shape(dims_new())
    }

    /// Rank (number of dimensions).
    pub fn rank(&self) -> (n: usize)
        ensures
            n == self.spec_dims().len(),
            n <= MAX_RANK,
    {
        proof {
            use_type_invariant(self);
        }
        dims_as_slice(&self.0).len()
    }

    /// Total number of elements (1 for a scalar).
    pub fn num_elements(&self) -> (n: usize)
        requires
            prefix_products_fit(self.spec_dims()),
        ensures
            n == #[verifier::truncate] ((product(self.spec_dims()) as u64) as usize),
    {
        let d = dims_as_slice(&self.0);
        if d.len() == 0 {
            return 1;
        }
        let mut p: u64 = 1;
        let mut i: usize = 0;
        proof {
            assert(d@.take(0) =~= Seq::<u64>::empty());
        }
        while i < d.len()
            invariant
                i <= d@.len(),
                d@ == self.spec_dims(),
                prefix_products_fit(d@),
                p == product(d@.take(i as int)),
            decreases d@.len() - i,
        {
            proof {
                assert(d@.take(i + 1) =~= d@.take(i as int).push(d@[i as int]));
                lemma_product_push(d@.take(i as int), d@[i as int]);
                assert(product(d@.take(i + 1)) <= u64::MAX);
            }
            p = p * d[i];
            i = i + 1;
        }
        proof {
            assert(d@.take(d@.len() as int) =~= d@);
        }
        #[verifier::truncate]
        (p as usize)
    }

    /// Dimensions as a slice.
    pub fn dims(&self) -> (s: &[u64])
        ensures
            s@ == self.spec_dims(),
    {
        dims_as_slice(&self.0)
    }

    /// The i-th dimension.
    pub fn dim(&self, i: usize) -> (d: u64)
        requires
            i < self.spec_dims().len(),
        ensures
            d == self.spec_dims()[i as int],
    {
        dims_as_slice(&self.0)[i]
    }

    /// Compute default row-major (C-order) strides in elements.
    pub fn row_major_strides(&self) -> (s: Strides)
        requires
            strides_fit(self.spec_dims()),
        ensures
            is_row_major(s.spec_strides(), self.spec_dims()),
    {
        proof {
            use_type_invariant(self);
        }
        let d = dims_as_slice(&self.0);
        let n = d.len();
        let mut strides = dims_new();
        dims_resize(&mut strides, n, 1);
        if n > 0 {
            let mut i = n - 1;
            proof {
                assert(d@.skip(n as int) =~= Seq::<u64>::empty());
            }
            while i > 0
                invariant
                    0 <= i < n,
                    n == d@.len(),
                    d@ == self.spec_dims(),
                    strides_fit(d@),
                    dims_of(strides).len() == n,
                    forall|j: int| i <= j < n ==> #[trigger] dims_of(strides)[j] == product(d@.skip(j + 1)),
                decreases i,
            {
                proof {
                    lemma_product_skip(d@, i as int);
                    assert(product(d@.skip(i as int)) <= u64::MAX);
                }
                let next = d[i] * dims_as_slice(&strides)[i];
                dims_set(&mut strides, i - 1, next);
                i = i - 1;
            }
        }
        let s = Strides(strides);
        proof {
            use_type_invariant(&s);
        }
        s
    }
}

impl Clone for Shape {
    fn clone(&self) -> (c: Self)
        ensures
            c.spec_dims() == self.spec_dims(),
    {
        proof {
            use_type_invariant(self);
        }
        Shape(dims_clone(&self.0))
    }
}

/// The product of a suffix unfolds by one dimension.
pub proof fn lemma_product_skip(s: Seq<u64>, i: int)
    requires
        0 <= i < s.len(),
    ensures
        product(s.skip(i)) == s[i] as nat * product(s.skip(i + 1)),
{
    assert(s.skip(i).drop_first() =~= s.skip(i + 1));
}

/// Appending a dimension multiplies the product by it.
pub proof fn lemma_product_push(s: Seq<u64>, x: u64)
    ensures
        product(s.push(x)) == product(s) * x as nat,
    decreases s.len(),
{
    if s.len() == 0 {
        assert(s.push(x).drop_first() =~= s);
        assert(product(s.push(x)) == x as nat * product(s));
        assert(product(s) == 1);
    } else {
        assert(s.push(x).drop_first() =~= s.drop_first().push(x));
        lemma_product_push(s.drop_first(), x);
        let a = product(s.drop_first());
        assert(s[0] as nat * (a * x as nat) == (s[0] as nat * a) * x as nat) by (nonlinear_arith);
        assert(product(s.push(x)) == s[0] as nat * product(s.push(x).drop_first()));
        assert(product(s) == s[0] as nat * a);
    }
}

/// Strides in *elements* (not bytes).
#[derive(Debug)]
pub struct Strides(DimVec);

impl Strides {
    /// The strides.
    pub closed spec fn spec_strides(&self) -> Seq<u64> {
        dims_of(self.0)
    }

    #[verifier::type_invariant]
    spec fn rank_bounded(&self) -> bool {
        dims_of(self.0).len() <= MAX_RANK
    }

    /// Construct from a slice.
    pub fn new(strides: &[u64]) -> (r: Result<Strides>)
        ensures
            strides@.len() > MAX_RANK ==> (r matches Err(FellmError::RankTooHigh(n)) && n == strides@.len()),
            strides@.len() <= MAX_RANK ==> (r matches Ok(s) && s.spec_strides() == strides@),
    {
        if strides.len() > MAX_RANK {
            return Err(FellmError::RankTooHigh(strides.len()));
        }
        Ok(Strides(dims_from_slice(strides)))
    }

    /// As a slice.
    pub fn as_slice(&self) -> (s: &[u64])
        ensures
            s@ == self.spec_strides(),
    {
        dims_as_slice(&self.0)
    }
}

impl Clone for Strides {
    fn clone(&self) -> (c: Self)
        ensures
            c.spec_strides() == self.spec_strides(),
    {
        proof {
            use_type_invariant(self);
        }
        Strides(dims_clone(&self.0))
    }
}

/// How the raw bytes of a tensor are interpreted: element type, shape, strides in
/// elements, and a byte offset into the backing storage.
#[derive(Debug)]
pub struct Layout {
    /// Element type.
    pub dtype: DType,
    /// Shape in logical elements.
    pub shape: Shape,
    /// Strides in elements.
    pub strides: Strides,
    /// Byte offset from the start of the underlying storage.
    pub offset_bytes: usize,
}

impl Clone for Layout {
    fn clone(&self) -> (c: Self)
        ensures
            c.dtype == self.dtype,
            c.shape.spec_dims() == self.shape.spec_dims(),
            c.strides.spec_strides() == self.strides.spec_strides(),
            c.offset_bytes == self.offset_bytes,
    {
        Layout {
            dtype: self.dtype,
            shape: self.shape.clone(),
            strides: self.strides.clone(),
            offset_bytes: self.offset_bytes,
        }
    }
}

impl Layout {
    /// Build a contiguous row-major layout.
    pub fn contiguous(dtype: DType, shape: Shape) -> (l: Layout)
        requires
            strides_fit(shape.spec_dims()),
        ensures
            l.dtype == dtype,
            l.shape.spec_dims() == shape.spec_dims(),
            is_row_major(l.strides.spec_strides(), shape.spec_dims()),
            l.offset_bytes == 0,
    {
        let strides = shape.row_major_strides();
        Layout { dtype, shape, strides, offset_bytes: 0 }
    }

    /// True if the strides are the contiguous row-major strides of the shape.
    pub fn is_contiguous(&self) -> (b: bool)
        requires
            strides_fit(self.shape.spec_dims()),
        ensures
            b == is_row_major(self.strides.spec_strides(), self.shape.spec_dims()),
    {
        let expected = self.shape.row_major_strides();
        let e = expected.as_slice();
        let s = self.strides.as_slice();
        if e.len() != s.len() {
            return false;
        }
        let mut i: usize = 0;
        while i < e.len()
            invariant
                i <= e@.len(),
                e@.len() == s@.len(),
                is_row_major(e@, self.shape.spec_dims()),
                s@ == self.strides.spec_strides(),
                forall|j: int| 0 <= j < i ==> s@[j] == e@[j],
            decreases e@.len() - i,
        {
            if e[i] != s[i] {
                proof {
                    assert(s@[i as int] != row_major(self.shape.spec_dims())[i as int]);
                }
                return false;
            }
            i = i + 1;
        }
        proof {
            assert forall|j: int| 0 <= j < s@.len() implies #[trigger] s@[j] == row_major(self.shape.spec_dims())[j] by {
                assert(e@[j] == row_major(self.shape.spec_dims())[j]);
            }
        }
        true
    }

    /// Total byte size of the payload.
    pub fn byte_size(&self) -> (n: usize)
        requires
            prefix_products_fit(self.shape.spec_dims()),
            self.dtype.spec_byte_size(((product(self.shape.spec_dims()) as u64) as usize) as nat) <= usize::MAX,
        ensures
            n == self.dtype.spec_byte_size(((product(self.shape.spec_dims()) as u64) as usize) as nat),
    {
        self.dtype.byte_size(self.shape.num_elements())
    }
}

} // verus!

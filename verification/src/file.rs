//! The GGUF container: header, metadata table, tensor index and payload placement.
use vstd::prelude::*;

use crate::dtype::DType;
use crate::error::{FellmError, Result};
use crate::meta::{fixed_at, fail_error, read_value, value_at, MetaItem, MetaMap, MetaModel, MetaValue, ReadFail};
use crate::reader::{gguf_string_at, Reader};
use crate::shape::{is_row_major, prefix_products_fit, product, strides_fit, Layout, Shape};

verus! {

/// The four magic bytes `GGUF`, read as a little-endian `u32`.
pub const GGUF_MAGIC: u32 = 0x4655_4747;

/// `x` rounded up with the mask `!(align - 1)`; `x` itself for an alignment of 0 or 1.
pub open spec fn spec_align_up(x: u64, align: u64) -> u64 {
    if align <= 1 {
        x
    } else {
        ((x + align - 1) as u64) & !((align - 1) as u64)
    }
}

/// The position of the highest set bit of `a` (0 for 0 and 1).
spec fn exponent_of(a: u64) -> nat
    decreases a,
{
    if a <= 1 {
        0
    } else {
        proof {
            assert(a > 1 ==> a >> 1u64 < a) by (bit_vector);
        }
        1 + exponent_of(a >> 1u64)
    }
}

/// A nonzero `u64` with no two bits set is the power of two at its highest bit.
proof fn lemma_pow2_exponent(a: u64)
    requires
        a > 0,
        a & ((a - 1) as u64) == 0,
    ensures
        exponent_of(a) < 64,
        vstd::arithmetic::power2::pow2(exponent_of(a)) == a,
    decreases a,
{
    if a <= 1 {
        vstd::arithmetic::power2::lemma2_to64();
    } else {
        let h = a >> 1u64;
        assert(h < a && h > 0 && h & ((h - 1) as u64) == 0 && a == 2 * h) by (bit_vector)
            requires
                a > 1,
                a & ((a - 1) as u64) == 0,
                h == a >> 1u64,
        ;
        lemma_pow2_exponent(h);
        vstd::arithmetic::power2::lemma_pow2_unfold(exponent_of(a));
        if exponent_of(h) >= 63 {
            vstd::arithmetic::power2::lemma2_to64_rest();
            vstd::arithmetic::power2::lemma_pow2_strictly_increases(63, exponent_of(h));
            assert(false);
        }
    }
}

/// Round `x` up to a multiple of `align` (by masking; exact for powers of two).
pub fn align_up(x: u64, align: u64) -> (r: u64)
    requires
        align <= 1 || x + align - 1 <= u64::MAX,
    ensures
        r == spec_align_up(x, align),
        align > 1 && align & ((align - 1) as u64) == 0 ==> r % align == 0 && x <= r && r < x + align,
{
    if align <= 1 {
        return x;
    }
    let r = (x + (align - 1)) & !(align - 1);
    proof {
        let a = align;
        let y = (x + a - 1) as u64;
        assert(r == y & !((a - 1) as u64));
        assert(r <= y && y - r == y & ((a - 1) as u64) && r & ((a - 1) as u64) == 0) by (bit_vector)
            requires
                r == y & !((a - 1) as u64),
        ;
        assert(y & ((a - 1) as u64) <= ((a - 1) as u64)) by (bit_vector);
        if a & ((a - 1) as u64) == 0 {
            lemma_pow2_exponent(a);
            let n = exponent_of(a);
            vstd::bits::lemma_u64_low_bits_mask_is_mod(r, n);
            assert(vstd::bits::low_bits_mask(n) == a - 1);
        }
    }
    r
}

/// A GGUF string field at `pos`, with the failure it reports.
pub open spec fn string_at(data: Seq<u8>, pos: int) -> core::result::Result<(Seq<char>, int), ReadFail> {
    match gguf_string_at(data, pos) {
        Ok(x) => Ok(x),
        Err(truncated) => Err(if truncated { ReadFail::Truncated } else { ReadFail::BadUtf8 }),
    }
}

/// `n` metadata entries (key string, then typed value) stored from `pos`, in file order.
pub open spec fn entries_at(data: Seq<u8>, pos: int, n: nat) -> core::result::Result<(Seq<(Seq<char>, MetaModel)>, int), ReadFail>
    decreases n,
{
    if n == 0 {
        Ok((Seq::empty(), pos))
    } else {
        match entries_at(data, pos, (n - 1) as nat) {
            Err(f) => Err(f),
            Ok((es, mid)) => match string_at(data, mid) {
                Err(f) => Err(f),
                Ok((k, p1)) => match value_at(data, p1) {
                    Err(f) => Err(f),
                    Ok((v, end)) => Ok((es.push((k, v)), end)),
                },
            },
        }
    }
}

/// `n` little-endian `u64` values stored from `pos`, in file order.
pub open spec fn words_at(data: Seq<u8>, pos: int, n: nat) -> Option<(Seq<u64>, int)>
    decreases n,
{
    if n == 0 {
        Some((Seq::empty(), pos))
    } else {
        match words_at(data, pos, (n - 1) as nat) {
            None => None,
            Some((ws, mid)) => match fixed_at(data, mid, 8) {
                Err(_) => None,
                Ok((w, end)) => Some((ws.push(w as u64), end)),
            },
        }
    }
}

/// Why a GGUF header was rejected.
pub enum HeaderFail {
    /// A string or metadata value could not be read.
    Read(ReadFail),
    /// The magic number is not `GGUF`.
    BadMagic(u32),
    /// The format version is neither 2 nor 3.
    BadVersion(u32),
    /// A tensor declares more than four dimensions.
    TooManyDims,
    /// A tensor has an unknown `ggml_type` code.
    UnknownDType(u32),
    /// Aligning the end of the header overflows a `u64`.
    OffsetOverflow,
}

/// A tensor descriptor as a mathematical value; `dims` are in row-major order.
pub struct InfoModel {
    /// Tensor name.
    pub name: Seq<char>,
    /// The `ggml_type` code of its element type.
    pub dtype_code: u32,
    /// Dimensions, outermost first.
    pub dims: Seq<u64>,
    /// Payload offset relative to the start of the tensor data.
    pub relative_offset: u64,
}

/// One tensor descriptor stored at `pos`: name, `u32` rank, the dimensions innermost
/// first, `u32` type code, `u64` relative offset.
pub open spec fn info_at(data: Seq<u8>, pos: int) -> core::result::Result<(InfoModel, int), HeaderFail> {
    match string_at(data, pos) {
        Err(f) => Err(HeaderFail::Read(f)),
        Ok((name, p1)) => match fixed_at(data, p1, 4) {
            Err(f) => Err(HeaderFail::Read(f)),
            Ok((n_dims, p2)) => if n_dims > 4 {
                Err(HeaderFail::TooManyDims)
            } else {
                match words_at(data, p2, n_dims) {
                    None => Err(HeaderFail::Read(ReadFail::Truncated)),
                    Some((ws, p3)) => match fixed_at(data, p3, 4) {
                        Err(f) => Err(HeaderFail::Read(f)),
                        Ok((code, p4)) => if !crate::dtype::is_known_ggml_code(code as u32) {
                            Err(HeaderFail::UnknownDType(code as u32))
                        } else {
                            match fixed_at(data, p4, 8) {
                                Err(f) => Err(HeaderFail::Read(f)),
                                Ok((off, p5)) => Ok((
                                    InfoModel {
                                        name,
                                        dtype_code: code as u32,
                                        dims: ws.reverse(),
                                        relative_offset: off as u64,
                                    },
                                    p5,
                                )),
                            }
                        },
                    },
                }
            },
        },
    }
}

/// `n` tensor descriptors stored from `pos`.
pub open spec fn infos_at(data: Seq<u8>, pos: int, n: nat) -> core::result::Result<(Seq<InfoModel>, int), HeaderFail>
    decreases n,
{
    if n == 0 {
        Ok((Seq::empty(), pos))
    } else {
        match infos_at(data, pos, (n - 1) as nat) {
            Err(f) => Err(f),
            Ok((xs, mid)) => match info_at(data, mid) {
                Err(f) => Err(f),
                Ok((x, end)) => Ok((xs.push(x), end)),
            },
        }
    }
}

/// The value stored last under `k` in a list of entries (later entries replace earlier).
pub open spec fn last_lookup(entries: Seq<(Seq<char>, MetaModel)>, k: Seq<char>) -> Option<MetaModel>
    decreases entries.len(),
{
    if entries.len() == 0 {
        None
    } else if entries.last().0 == k {
        Some(entries.last().1)
    } else {
        last_lookup(entries.drop_last(), k)
    }
}

/// The payload alignment a metadata value asks for: a `u32` or `u64` value, else 32.
pub open spec fn alignment_of(v: Option<MetaModel>) -> u64 {
    match v {
        Some(MetaModel::Item(MetaItem::U32(x))) => x as u64,
        Some(MetaModel::Item(MetaItem::U64(x))) => x,
        _ => 32,
    }
}

/// A parsed GGUF header as a mathematical value.
pub struct HeaderModel {
    /// Metadata entries in file order.
    pub entries: Seq<(Seq<char>, MetaModel)>,
    /// Tensor descriptors in file order.
    pub infos: Seq<InfoModel>,
    /// Payload alignment.
    pub alignment: u64,
    /// Absolute offset of the tensor data: the end of the header, aligned.
    pub data_offset: u64,
}

/// The GGUF header at the start of `data`: magic, version, tensor count, metadata count,
/// the metadata entries, the tensor descriptors; the tensor data starts at the next
/// multiple of the alignment.
pub open spec fn header_at(data: Seq<u8>) -> core::result::Result<HeaderModel, HeaderFail> {
    match fixed_at(data, 0, 4) {
        Err(f) => Err(HeaderFail::Read(f)),
        Ok((magic, p1)) => if magic as u32 != GGUF_MAGIC {
            Err(HeaderFail::BadMagic(magic as u32))
        } else {
            match fixed_at(data, p1, 4) {
                Err(f) => Err(HeaderFail::Read(f)),
                Ok((version, p2)) => if version as u32 != 2 && version as u32 != 3 {
                    Err(HeaderFail::BadVersion(version as u32))
                } else {
                    match fixed_at(data, p2, 8) {
                        Err(f) => Err(HeaderFail::Read(f)),
                        Ok((n_tensors, p3)) => match fixed_at(data, p3, 8) {
                            Err(f) => Err(HeaderFail::Read(f)),
                            Ok((n_meta, p4)) => match entries_at(data, p4, n_meta) {
                                Err(f) => Err(HeaderFail::Read(f)),
                                Ok((es, p5)) => match infos_at(data, p5, n_tensors) {
                                    Err(f) => Err(f),
                                    Ok((xs, p6)) => {
                                        let a = alignment_of(last_lookup(es, "general.alignment"@));
                                        if a > 1 && p6 + a > u64::MAX {
                                            Err(HeaderFail::OffsetOverflow)
                                        } else {
                                            Ok(HeaderModel {
                                                entries: es,
                                                infos: xs,
                                                alignment: a,
                                                data_offset: spec_align_up(p6 as u64, a),
                                            })
                                        }
                                    },
                                },
                            },
                        },
                    }
                },
            }
        },
    }
}

/// The library error that reports a header failure.
pub open spec fn header_error(f: HeaderFail, e: FellmError) -> bool {
    match f {
        HeaderFail::Read(rf) => fail_error(rf, e),
        HeaderFail::BadMagic(m) => e == FellmError::BadGgufMagic(m),
        HeaderFail::BadVersion(v) => e == FellmError::UnsupportedGgufVersion(v),
        HeaderFail::UnknownDType(c) => e == FellmError::UnknownDType(c),
        HeaderFail::TooManyDims | HeaderFail::OffsetOverflow => e is Parse,
    }
}

proof fn lemma_entries_err_persists(data: Seq<u8>, pos: int, i: nat, n: nat)
    requires
        i <= n,
        entries_at(data, pos, i) is Err,
    ensures
        entries_at(data, pos, n) == entries_at(data, pos, i),
    decreases n,
{
    if n > i {
        lemma_entries_err_persists(data, pos, i, (n - 1) as nat);
    }
}

proof fn lemma_words_none_persists(data: Seq<u8>, pos: int, i: nat, n: nat)
    requires
        i <= n,
        words_at(data, pos, i) is None,
    ensures
        words_at(data, pos, n) is None,
    decreases n,
{
    if n > i {
        lemma_words_none_persists(data, pos, i, (n - 1) as nat);
    }
}

proof fn lemma_words_len(data: Seq<u8>, pos: int, n: nat)
    requires
        words_at(data, pos, n) is Some,
    ensures
        words_at(data, pos, n).unwrap().0.len() == n,
    decreases n,
{
    if n > 0 {
        lemma_words_len(data, pos, (n - 1) as nat);
    }
}

proof fn lemma_infos_err_persists(data: Seq<u8>, pos: int, i: nat, n: nat)
    requires
        i <= n,
        infos_at(data, pos, i) is Err,
    ensures
        infos_at(data, pos, n) == infos_at(data, pos, i),
    decreases n,
{
    if n > i {
        lemma_infos_err_persists(data, pos, i, (n - 1) as nat);
    }
}

/// Message for a tensor that declares too many dimensions.
#[verifier::external_body]
fn too_many_dims_message(name: &str, n_dims: u32) -> String {
    format!("GGUF tensor {name} has {n_dims} dims (> 4)")
}

/// Message for a tensor index past the end of the index.
#[verifier::external_body]
fn index_message(idx: usize) -> String {
    format!("tensor index {idx} out of range")
}

/// Per-tensor descriptor from the GGUF header.
#[derive(Debug)]
pub struct TensorInfo {
    /// Name.
    pub name: String,
    /// Element type.
    pub dtype: DType,
    /// Shape in row-major order (GGUF stores it innermost first; it is normalized).
    pub shape: Shape,
    /// Offset in bytes relative to the start of the tensor data.
    pub relative_offset: u64,
}

impl TensorInfo {
    /// The descriptor as a mathematical value.
    pub open spec fn model(&self) -> InfoModel {
        InfoModel {
            name: self.name@,
            dtype_code: self.dtype.code(),
            dims: self.shape.spec_dims(),
            relative_offset: self.relative_offset,
        }
    }

    /// Number of elements, as the shape computes it (1 for a scalar).
    pub open spec fn spec_num_elements(&self) -> nat {
        ((product(self.shape.spec_dims()) as u64) as usize) as nat
    }

    /// Size in bytes of the payload.
    pub open spec fn spec_payload_len(&self) -> nat {
        self.dtype.spec_byte_size(self.spec_num_elements())
    }

    /// Locating this tensor's payload, with the data starting at `data_offset`, overflows
    /// nothing: element count, strides, byte length and absolute offset all fit.
    pub open spec fn fits(&self, data_offset: u64) -> bool {
        &&& prefix_products_fit(self.shape.spec_dims())
        &&& strides_fit(self.shape.spec_dims())
        &&& self.spec_payload_len() <= usize::MAX
        &&& data_offset + self.relative_offset <= u64::MAX
    }
}

/// Where a tensor's payload lies in the file, and how its bytes are laid out.
#[derive(Debug)]
pub struct TensorExtent {
    /// Contiguous row-major layout of the tensor.
    pub layout: Layout,
    /// Absolute byte offset of the payload in the file.
    pub offset: u64,
    /// Payload length in bytes.
    pub len: usize,
}

impl TensorExtent {
    /// This extent locates the tensor `info` of a file whose data starts at `data_offset`.
    pub open spec fn locates(&self, info: TensorInfo, data_offset: u64) -> bool {
        &&& self.layout.dtype == info.dtype
        &&& self.layout.shape.spec_dims() == info.shape.spec_dims()
        &&& is_row_major(self.layout.strides.spec_strides(), info.shape.spec_dims())
        &&& self.layout.offset_bytes == 0
        &&& self.offset == data_offset + info.relative_offset
        &&& self.len == info.spec_payload_len()
    }
}

/// The index of the last descriptor named `name`, or -1 when there is none.
pub open spec fn last_named(infos: Seq<TensorInfo>, name: Seq<char>) -> int
    decreases infos.len(),
{
    if infos.len() == 0 {
        -1
    } else if infos.last().name@ == name {
        infos.len() - 1
    } else {
        last_named(infos.drop_last(), name)
    }
}

proof fn lemma_last_named(infos: Seq<TensorInfo>, name: Seq<char>)
    ensures
        -1 <= last_named(infos, name) < infos.len(),
        last_named(infos, name) >= 0 ==> infos[last_named(infos, name)].name@ == name,
        forall|j: int| last_named(infos, name) < j < infos.len() ==> #[trigger] infos[j].name@ != name,
    decreases infos.len(),
{
    if infos.len() > 0 && infos.last().name@ != name {
        lemma_last_named(infos.drop_last(), name);
        assert forall|j: int| last_named(infos, name) < j < infos.len() implies #[trigger] infos[j].name@ != name by {
            if j < infos.len() - 1 {
                assert(infos[j] == infos.drop_last()[j]);
            }
        }
    }
}

proof fn lemma_last_named_from_scan(infos: Seq<TensorInfo>, name: Seq<char>, i: int)
    requires
        0 <= i < infos.len(),
        infos[i].name@ == name,
        forall|j: int| i < j < infos.len() ==> #[trigger] infos[j].name@ != name,
    ensures
        last_named(infos, name) == i,
    decreases infos.len(),
{
    if i < infos.len() - 1 {
        assert(infos.last() == infos[infos.len() - 1]);
        lemma_last_named_from_scan(infos.drop_last(), name, i);
    }
}

proof fn lemma_last_named_none(infos: Seq<TensorInfo>, name: Seq<char>)
    requires
        forall|j: int| 0 <= j < infos.len() ==> #[trigger] infos[j].name@ != name,
    ensures
        last_named(infos, name) == -1,
    decreases infos.len(),
{
    if infos.len() > 0 {
        assert(infos.last() == infos[infos.len() - 1]);
        lemma_last_named_none(infos.drop_last(), name);
    }
}

/// Read one tensor descriptor.
#[verifier::loop_isolation(false)]
fn read_tensor_info(r: &mut Reader<'_>) -> (res: Result<TensorInfo>)
    ensures
        final(r).data() == old(r).data(),
        match info_at(old(r).data(), old(r).cursor() as int) {
            Ok((m, end)) => res matches Ok(t) && t.model() == m && final(r).cursor() == end,
            Err(f) => res matches Err(e) && header_error(f, e),
        },
{
    let ghost data = r.data();
    let ghost start = r.cursor() as int;
    let name = r.gguf_string()?;
    let ghost p1 = r.cursor() as int;
    assert(string_at(data, start) == Ok::<(Seq<char>, int), ReadFail>((name@, p1)));
    let n_dims = r.u32()?;
    assert(fixed_at(data, p1, 4) == Ok::<(nat, int), ReadFail>((n_dims as nat, r.cursor() as int)));
    if n_dims > 4 {
        return Err(FellmError::Parse(too_many_dims_message(name.as_str(), n_dims)));
    }
    let ghost p2 = r.cursor() as int;
    let mut file_order: Vec<u64> = Vec::new();
    let mut i: u32 = 0;
    while i < n_dims
        invariant
            r.data() == data,
            i <= n_dims,
            n_dims <= 4,
            words_at(data, p2, i as nat) == Some((file_order@, r.cursor() as int)),
        decreases n_dims - i,
    {
        let w = match r.u64() {
            Ok(w) => w,
            Err(e) => {
                proof {
                    lemma_words_none_persists(data, p2, (i + 1) as nat, n_dims as nat);
                }
                return Err(e);
            },
        };
        file_order.push(w);
        i = i + 1;
    }
    proof {
        lemma_words_len(data, p2, n_dims as nat);
    }
    let n = file_order.len();
    let mut dims: Vec<u64> = Vec::new();
    let mut j: usize = n;
    while j > 0
        invariant
            j <= n,
            n == file_order@.len(),
            dims@ =~= Seq::new((n - j) as nat, |t: int| file_order@[n - 1 - t]),
        decreases j,
    {
        j = j - 1;
        dims.push(file_order[j]);
    }
    proof {
        assert(dims@ =~= file_order@.reverse());
    }
    let shape = match Shape::new(dims.as_slice()) {
        Ok(s) => s,
        Err(e) => return Err(e),
    };
    let ghost p3 = r.cursor() as int;
    assert(words_at(data, p2, n_dims as nat) == Some((file_order@, p3)));
    let code = r.u32()?;
    let ghost p4 = r.cursor() as int;
    assert(fixed_at(data, p3, 4) == Ok::<(nat, int), ReadFail>((code as nat, p4)));
    let dtype = match DType::from_ggml_code(code) {
        Ok(d) => d,
        Err(e) => {
            assert(!crate::dtype::is_known_ggml_code(code));
            assert(info_at(data, start) == Err::<(InfoModel, int), HeaderFail>(HeaderFail::UnknownDType(code)));
            return Err(e);
        },
    };
    let relative_offset = r.u64()?;
    assert(fixed_at(data, p4, 8) == Ok::<(nat, int), ReadFail>((relative_offset as nat, r.cursor() as int)));
    let info = TensorInfo { name, dtype, shape, relative_offset };
    assert(info.model().dims == file_order@.reverse());
    assert(info_at(data, start) == Ok::<(InfoModel, int), HeaderFail>((info.model(), r.cursor() as int)));
    Ok(info)
}

/// A parsed GGUF file: its metadata table, its tensor descriptors, and where the tensor
/// payloads start.
#[derive(Debug)]
pub struct GgufFile {
    /// Absolute offset within the file where tensor payloads start.
    tensor_data_offset: u64,
    /// Alignment (bytes) required for tensor payloads.
    alignment: u64,
    /// Metadata table.
    pub metadata: MetaMap,
    /// Tensor descriptors, as declared.
    pub tensor_infos: Vec<TensorInfo>,
}

impl GgufFile {
    /// The tensor descriptors as mathematical values.
    pub closed spec fn spec_infos(&self) -> Seq<InfoModel> {
        self.tensor_infos@.map_values(|t: TensorInfo| t.model())
    }

    /// The metadata table.
    pub closed spec fn spec_metadata(&self) -> MetaMap {
        self.metadata
    }

    /// Absolute offset of the tensor data.
    pub closed spec fn spec_data_offset(&self) -> u64 {
        self.tensor_data_offset
    }

    /// Payload alignment.
    pub closed spec fn spec_alignment(&self) -> u64 {
        self.alignment
    }

    /// This file holds exactly the parsed header `h`.
    pub open spec fn holds_header(&self, h: HeaderModel) -> bool {
        &&& self.spec_infos() == h.infos
        &&& forall|k: Seq<char>| #[trigger] self.spec_metadata().spec_get(k) == last_lookup(h.entries, k)
        &&& self.spec_alignment() == h.alignment
        &&& self.spec_data_offset() == h.data_offset
    }

    /// The metadata table.
    pub fn meta(&self) -> (m: &MetaMap)
        ensures
            *m == self.spec_metadata(),
    {
        &self.metadata
    }

    /// The tensor descriptors.
    pub closed spec fn spec_tensors(&self) -> Seq<TensorInfo> {
        self.tensor_infos@
    }

    /// Absolute byte offset where tensor data starts.
    pub fn tensor_data_offset(&self) -> (o: u64)
        ensures
            o == self.spec_data_offset(),
    {
        self.tensor_data_offset
    }

    /// Payload alignment.
    pub fn alignment(&self) -> (a: u64)
        ensures
            a == self.spec_alignment(),
    {
        self.alignment
    }

    /// All tensor descriptors, in declaration order.
    pub fn tensors(&self) -> (s: &[TensorInfo])
        ensures
            s@ == self.spec_tensors(),
    {
        self.tensor_infos.as_slice()
    }

    /// True if a tensor with this name exists.
    pub fn has_tensor(&self, name: &str) -> (b: bool)
        ensures
            b == (last_named(self.spec_tensors(), name@) >= 0),
    {
        self.tensor_index(name).is_some()
    }

    /// Index of the last descriptor named `name` (later duplicates shadow earlier ones).
    pub fn tensor_index(&self, name: &str) -> (r: Option<usize>)
        ensures
            match r {
                Some(i) => i == last_named(self.spec_tensors(), name@),
                None => last_named(self.spec_tensors(), name@) == -1,
            },
    {
        let infos = self.tensor_infos.as_slice();
        let mut i: usize = infos.len();
        while i > 0
            invariant
                i <= infos@.len(),
                infos@ == self.spec_tensors(),
                forall|j: int| i <= j < infos@.len() ==> #[trigger] infos@[j].name@ != name@,
            decreases i,
        {
            i = i - 1;
            if crate::text::str_equal(infos[i].name.as_str(), name) {
                proof {
                    lemma_last_named_from_scan(infos@, name@, i as int);
                }
                return Some(i);
            }
        }
        proof {
            lemma_last_named_none(infos@, name@);
        }
        None
    }

    /// True when the payload of tensor `idx` can be located without overflow (see
    /// [`TensorInfo::fits`]).
    #[verifier::loop_isolation(false)]
    pub fn tensor_fits(&self, idx: usize) -> (b: bool)
        requires
            idx < self.spec_tensors().len(),
        ensures
            b == self.spec_tensors()[idx as int].fits(self.spec_data_offset()),
    {
        let ti = &self.tensor_infos[idx];
        if ti.relative_offset > u64::MAX - self.tensor_data_offset {
            return false;
        }
        let d = ti.shape.dims();
        // Products of leading runs, as the element count multiplies left to right.
        let mut p: u64 = 1;
        let mut i: usize = 0;
        proof {
            assert(d@.take(0) =~= Seq::<u64>::empty());
        }
        while i < d.len()
            invariant
                i <= d@.len(),
                d@ == ti.shape.spec_dims(),
                p == product(d@.take(i as int)),
                forall|k: int| 0 <= k <= i ==> #[trigger] product(d@.take(k)) <= u64::MAX,
            decreases d@.len() - i,
        {
            proof {
                assert(d@.take(i + 1) =~= d@.take(i as int).push(d@[i as int]));
                crate::shape::lemma_product_push(d@.take(i as int), d@[i as int]);
            }
            match p.checked_mul(d[i]) {
                Some(q) => p = q,
                None => {
                    assert(product(d@.take(i + 1)) > u64::MAX);
                    assert(!prefix_products_fit(d@));
                    return false;
                },
            }
            i = i + 1;
        }
        // Products of trailing runs, as the strides multiply right to left.
        let n = d.len();
        let mut q: u64 = 1;
        let mut j: usize = n;
        proof {
            assert(d@.skip(n as int) =~= Seq::<u64>::empty());
        }
        while j > 1
            invariant
                1 <= j <= n || (n == 0 && j == 0),
                n == d@.len(),
                d@ == ti.shape.spec_dims(),
                q == product(d@.skip(j as int)),
                forall|k: int| j <= k <= n && k >= 1 ==> #[trigger] product(d@.skip(k)) <= u64::MAX,
            decreases j,
        {
            proof {
                crate::shape::lemma_product_skip(d@, (j - 1) as int);
            }
            match d[j - 1].checked_mul(q) {
                Some(v) => q = v,
                None => {
                    assert(product(d@.skip(j - 1)) > u64::MAX);
                    assert(!strides_fit(d@));
                    return false;
                },
            }
            j = j - 1;
        }
        proof {
            assert(d@.take(d@.len() as int) =~= d@);
        }
        let count = p as usize;
        let epb = ti.dtype.elements_per_block();
        let bpb = ti.dtype.bytes_per_block();
        proof {
            assert(epb == 1 || epb == 32 || epb == 256);
            if epb > 1 {
                assert(count / epb < usize::MAX) by (nonlinear_arith)
                    requires
                        epb > 1,
                ;
            }
        }
        let blocks = count / epb + if count % epb == 0 { 0 } else { 1 };
        proof {
            crate::dtype::lemma_div_ceil(count as nat, epb as nat);
        }
        blocks.checked_mul(bpb).is_some()
    }

    /// Locate tensor `idx`: its row-major layout, absolute offset and byte length.
    pub fn tensor_at(&self, idx: usize) -> (r: Result<TensorExtent>)
        requires
            idx < self.spec_tensors().len() ==> self.spec_tensors()[idx as int].fits(self.spec_data_offset()),
        ensures
            idx >= self.spec_tensors().len() ==> r matches Err(FellmError::Parse(_)),
            idx < self.spec_tensors().len() ==> (r matches Ok(t)
                && t.locates(self.spec_tensors()[idx as int], self.spec_data_offset())),
    {
        if idx >= self.tensor_infos.len() {
            return Err(FellmError::Parse(index_message(idx)));
        }
        let ti = &self.tensor_infos[idx];
        let byte_size = ti.dtype.byte_size(ti.shape.num_elements());
        let absolute = self.tensor_data_offset + ti.relative_offset;
        let layout = Layout::contiguous(ti.dtype, ti.shape.clone());
        Ok(TensorExtent { layout, offset: absolute, len: byte_size })
    }

    /// Locate the tensor named `name` (the last one declared under that name).
    pub fn tensor(&self, name: &str) -> (r: Result<TensorExtent>)
        requires
            last_named(self.spec_tensors(), name@) >= 0 ==>
                self.spec_tensors()[last_named(self.spec_tensors(), name@)].fits(self.spec_data_offset()),
        ensures
            last_named(self.spec_tensors(), name@) < 0 ==> (r matches Err(FellmError::TensorNotFound(s)) && s@ == name@),
            last_named(self.spec_tensors(), name@) >= 0 ==> (r matches Ok(t)
                && t.locates(self.spec_tensors()[last_named(self.spec_tensors(), name@)], self.spec_data_offset())),
    {
        match self.tensor_index(name) {
            Some(i) => {
                proof {
                    lemma_last_named(self.spec_tensors(), name@);
                }
                self.tensor_at(i)
            },
            None => Err(FellmError::TensorNotFound(name.to_owned())),
        }
    }

    /// Parse the GGUF header (and index) from the start of `bytes`.
    pub fn from_bytes(bytes: &[u8]) -> (res: Result<GgufFile>)
        ensures
            match header_at(bytes@) {
                Ok(h) => res matches Ok(f) && f.holds_header(h),
                Err(fl) => res matches Err(e) && header_error(fl, e),
            },
    {
        let mut r = Reader::new(bytes);
        let magic = r.u32()?;
        if magic != GGUF_MAGIC {
            return Err(FellmError::BadGgufMagic(magic));
        }
        let version = r.u32()?;
        if version != 3 && version != 2 {
            return Err(FellmError::UnsupportedGgufVersion(version));
        }
        let tensor_count = r.u64()?;
        let meta_count = r.u64()?;
        let ghost p4 = r.cursor() as int;
        let metadata = read_metadata(&mut r, meta_count)?;
        let ghost es = match entries_at(bytes@, p4, meta_count as nat) {
            Ok((es, _)) => es,
            Err(_) => Seq::empty(),
        };
        let ghost p5 = r.cursor() as int;
        let tensor_infos = read_infos(&mut r, tensor_count)?;
        let alignment: u64 = match metadata.get("general.alignment") {
            Some(MetaValue::U32(x)) => *x as u64,
            Some(MetaValue::U64(x)) => *x,
            _ => 32,
        };
        assert(alignment == alignment_of(last_lookup(es, "general.alignment"@)));
        let unaligned = r.pos() as u64;
        if alignment > 1 && unaligned > u64::MAX - alignment {
            return Err(FellmError::parse("GGUF alignment overflows the tensor data offset"));
        }
        let tensor_data_offset = align_up(unaligned, alignment);
        let f = GgufFile { tensor_data_offset, alignment, metadata, tensor_infos };
        Ok(f)
    }
}

/// Read `n` metadata entries into a table; a later entry under a key replaces an earlier.
#[verifier::loop_isolation(false)]
fn read_metadata(r: &mut Reader<'_>, n: u64) -> (res: Result<MetaMap>)
    ensures
        final(r).data() == old(r).data(),
        match entries_at(old(r).data(), old(r).cursor() as int, n as nat) {
            Ok((es, end)) => res matches Ok(m) && final(r).cursor() == end
                && forall|k: Seq<char>| #[trigger] m.spec_get(k) == last_lookup(es, k),
            Err(f) => res matches Err(e) && fail_error(f, e),
        },
{
    let ghost data = r.data();
    let ghost start = r.cursor() as int;
    let mut metadata = MetaMap::new();
    let ghost mut es: Seq<(Seq<char>, MetaModel)> = Seq::empty();
    let mut i: u64 = 0;
    while i < n
        invariant
            r.data() == data,
            i <= n,
            entries_at(data, start, i as nat) == Ok::<(Seq<(Seq<char>, MetaModel)>, int), ReadFail>((es, r.cursor() as int)),
            forall|k: Seq<char>| #[trigger] metadata.spec_get(k) == last_lookup(es, k),
        decreases n - i,
    {
        let key = match r.gguf_string() {
            Ok(k) => k,
            Err(e) => {
                proof {
                    lemma_entries_err_persists(data, start, (i + 1) as nat, n as nat);
                }
                return Err(e);
            },
        };
        let val = match read_value(r) {
            Ok(v) => v,
            Err(e) => {
                proof {
                    lemma_entries_err_persists(data, start, (i + 1) as nat, n as nat);
                }
                return Err(e);
            },
        };
        let ghost entry = (key@, val.model());
        metadata.insert(key, val);
        proof {
            assert(es.push(entry).drop_last() =~= es);
            es = es.push(entry);
        }
        i = i + 1;
    }
    Ok(metadata)
}

/// Read `n` tensor descriptors.
#[verifier::loop_isolation(false)]
fn read_infos(r: &mut Reader<'_>, n: u64) -> (res: Result<Vec<TensorInfo>>)
    ensures
        final(r).data() == old(r).data(),
        match infos_at(old(r).data(), old(r).cursor() as int, n as nat) {
            Ok((xs, end)) => res matches Ok(v) && final(r).cursor() == end
                && v@.map_values(|x: TensorInfo| x.model()) == xs,
            Err(f) => res matches Err(e) && header_error(f, e),
        },
{
    let ghost data = r.data();
    let ghost start = r.cursor() as int;
    let mut infos: Vec<TensorInfo> = Vec::new();
    assert(infos@.map_values(|x: TensorInfo| x.model()) =~= Seq::<InfoModel>::empty());
    let mut t: u64 = 0;
    while t < n
        invariant
            r.data() == data,
            t <= n,
            infos_at(data, start, t as nat) == Ok::<(Seq<InfoModel>, int), HeaderFail>((
                infos@.map_values(|x: TensorInfo| x.model()),
                r.cursor() as int,
            )),
        decreases n - t,
    {
        let info = match read_tensor_info(r) {
            Ok(x) => x,
            Err(e) => {
                proof {
                    lemma_infos_err_persists(data, start, (t + 1) as nat, n as nat);
                }
                return Err(e);
            },
        };
        let ghost before = infos@;
        infos.push(info);
        proof {
            assert(infos@.map_values(|x: TensorInfo| x.model())
                =~= before.map_values(|x: TensorInfo| x.model()).push(infos@.last().model()));
        }
        t = t + 1;
    }
    Ok(infos)
}

/// Two byte sequences of one length that agree from index `lo` on.
pub open spec fn agree_from(d1: Seq<u8>, d2: Seq<u8>, lo: int) -> bool {
    &&& d1.len() == d2.len()
    &&& forall|i: int| lo <= i < d1.len() ==> d1[i] == d2[i]
}

proof fn lemma_bytes_local(d1: Seq<u8>, d2: Seq<u8>, lo: int, pos: int, n: int)
    requires
        agree_from(d1, d2, lo),
        lo <= pos,
    ensures
        crate::reader::bytes_at(d1, pos, n) == crate::reader::bytes_at(d2, pos, n),
{
    if 0 <= pos && 0 <= n && pos + n <= d1.len() {
        assert(d1.subrange(pos, pos + n) =~= d2.subrange(pos, pos + n));
    }
}

proof fn lemma_fixed_local(d1: Seq<u8>, d2: Seq<u8>, lo: int, pos: int, n: int)
    requires
        agree_from(d1, d2, lo),
        lo <= pos,
        0 <= n,
    ensures
        fixed_at(d1, pos, n) == fixed_at(d2, pos, n),
        fixed_at(d1, pos, n) matches Ok((_, e)) ==> e >= pos,
{
    lemma_bytes_local(d1, d2, lo, pos, n);
}

proof fn lemma_string_local(d1: Seq<u8>, d2: Seq<u8>, lo: int, pos: int)
    requires
        agree_from(d1, d2, lo),
        lo <= pos,
    ensures
        gguf_string_at(d1, pos) == gguf_string_at(d2, pos),
        string_at(d1, pos) == string_at(d2, pos),
        string_at(d1, pos) matches Ok((_, e)) ==> e >= pos,
{
    lemma_bytes_local(d1, d2, lo, pos, 8);
    if let Some(lb) = crate::reader::bytes_at(d1, pos, 8) {
        let len = (crate::reader::le_value(lb) as u64) as usize;
        lemma_bytes_local(d1, d2, lo, pos + 8, len as int);
    }
}

proof fn lemma_item_local(kind: crate::meta::MetaKind, d1: Seq<u8>, d2: Seq<u8>, lo: int, pos: int)
    requires
        agree_from(d1, d2, lo),
        lo <= pos,
    ensures
        crate::meta::item_at(kind, d1, pos) == crate::meta::item_at(kind, d2, pos),
        crate::meta::item_at(kind, d1, pos) matches Ok((_, e)) ==> e >= pos,
{
    lemma_string_local(d1, d2, lo, pos);
    lemma_fixed_local(d1, d2, lo, pos, 1);
    lemma_fixed_local(d1, d2, lo, pos, 2);
    lemma_fixed_local(d1, d2, lo, pos, 4);
    lemma_fixed_local(d1, d2, lo, pos, 8);
}

proof fn lemma_items_local(kind: crate::meta::MetaKind, d1: Seq<u8>, d2: Seq<u8>, lo: int, pos: int, n: nat)
    requires
        agree_from(d1, d2, lo),
        lo <= pos,
    ensures
        crate::meta::items_at(kind, d1, pos, n) == crate::meta::items_at(kind, d2, pos, n),
        crate::meta::items_at(kind, d1, pos, n) matches Ok((_, e)) ==> e >= pos,
    decreases n,
{
    if n > 0 {
        lemma_items_local(kind, d1, d2, lo, pos, (n - 1) as nat);
        if let Ok((_, mid)) = crate::meta::items_at(kind, d1, pos, (n - 1) as nat) {
            lemma_item_local(kind, d1, d2, lo, mid);
        }
    }
}

proof fn lemma_value_local(d1: Seq<u8>, d2: Seq<u8>, lo: int, pos: int)
    requires
        agree_from(d1, d2, lo),
        lo <= pos,
    ensures
        value_at(d1, pos) == value_at(d2, pos),
        value_at(d1, pos) matches Ok((_, e)) ==> e >= pos,
{
    lemma_fixed_local(d1, d2, lo, pos, 4);
    if let Ok((code, p1)) = fixed_at(d1, pos, 4) {
        if let Some(kind) = crate::meta::MetaKind::spec_from_code(code as u32) {
            lemma_fixed_local(d1, d2, lo, p1, 4);
            lemma_item_local(kind, d1, d2, lo, p1);
            if let Ok((c2, p2)) = fixed_at(d1, p1, 4) {
                lemma_fixed_local(d1, d2, lo, p2, 8);
                if let Some(elem) = crate::meta::MetaKind::spec_from_code(c2 as u32) {
                    if let Ok((n, p3)) = fixed_at(d1, p2, 8) {
                        lemma_items_local(elem, d1, d2, lo, p3, ((n as u64) as usize) as nat);
                    }
                }
            }
        }
    }
}

proof fn lemma_entries_local(d1: Seq<u8>, d2: Seq<u8>, lo: int, pos: int, n: nat)
    requires
        agree_from(d1, d2, lo),
        lo <= pos,
    ensures
        entries_at(d1, pos, n) == entries_at(d2, pos, n),
        entries_at(d1, pos, n) matches Ok((_, e)) ==> e >= pos,
    decreases n,
{
    if n > 0 {
        lemma_entries_local(d1, d2, lo, pos, (n - 1) as nat);
        if let Ok((_, mid)) = entries_at(d1, pos, (n - 1) as nat) {
            lemma_string_local(d1, d2, lo, mid);
            if let Ok((_, p1)) = string_at(d1, mid) {
                lemma_value_local(d1, d2, lo, p1);
            }
        }
    }
}

proof fn lemma_words_local(d1: Seq<u8>, d2: Seq<u8>, lo: int, pos: int, n: nat)
    requires
        agree_from(d1, d2, lo),
        lo <= pos,
    ensures
        words_at(d1, pos, n) == words_at(d2, pos, n),
        words_at(d1, pos, n) matches Some((_, e)) ==> e >= pos,
    decreases n,
{
    if n > 0 {
        lemma_words_local(d1, d2, lo, pos, (n - 1) as nat);
        if let Some((_, mid)) = words_at(d1, pos, (n - 1) as nat) {
            lemma_fixed_local(d1, d2, lo, mid, 8);
        }
    }
}

proof fn lemma_info_local(d1: Seq<u8>, d2: Seq<u8>, lo: int, pos: int)
    requires
        agree_from(d1, d2, lo),
        lo <= pos,
    ensures
        info_at(d1, pos) == info_at(d2, pos),
        info_at(d1, pos) matches Ok((_, e)) ==> e >= pos,
{
    lemma_string_local(d1, d2, lo, pos);
    if let Ok((_, p1)) = string_at(d1, pos) {
        lemma_fixed_local(d1, d2, lo, p1, 4);
        if let Ok((nd, p2)) = fixed_at(d1, p1, 4) {
            lemma_words_local(d1, d2, lo, p2, nd);
            if let Some((_, p3)) = words_at(d1, p2, nd) {
                lemma_fixed_local(d1, d2, lo, p3, 4);
                if let Ok((_, p4)) = fixed_at(d1, p3, 4) {
                    lemma_fixed_local(d1, d2, lo, p4, 8);
                }
            }
        }
    }
}

proof fn lemma_infos_local(d1: Seq<u8>, d2: Seq<u8>, lo: int, pos: int, n: nat)
    requires
        agree_from(d1, d2, lo),
        lo <= pos,
    ensures
        infos_at(d1, pos, n) == infos_at(d2, pos, n),
        infos_at(d1, pos, n) matches Ok((_, e)) ==> e >= pos,
    decreases n,
{
    if n > 0 {
        lemma_infos_local(d1, d2, lo, pos, (n - 1) as nat);
        if let Ok((_, mid)) = infos_at(d1, pos, (n - 1) as nat) {
            lemma_info_local(d1, d2, lo, mid);
        }
    }
}

proof fn lemma_infos_fail(data: Seq<u8>, pos: int, n: nat)
    ensures
        !(infos_at(data, pos, n) matches Err(HeaderFail::BadVersion(_))),
    decreases n,
{
    if n > 0 {
        lemma_infos_fail(data, pos, (n - 1) as nat);
    }
}

/// `data` with its version field (bytes 4 to 8) set to the small number `v`.
pub open spec fn with_version(data: Seq<u8>, v: u8) -> Seq<u8> {
    data.update(4, v).update(5, 0u8).update(6, 0u8).update(7, 0u8)
}

/// The little-endian `u32` version field of a GGUF header.
pub open spec fn version_field(data: Seq<u8>) -> nat {
    crate::reader::le_value(data.subrange(4, 8))
}

/// The little-endian `u32` magic field of a GGUF header.
pub open spec fn magic_field(data: Seq<u8>) -> nat {
    crate::reader::le_value(data.subrange(0, 4))
}

proof fn lemma_le4(b: Seq<u8>)
    requires
        b.len() == 4,
    ensures
        crate::reader::le_value(b) == b[0] + 256 * b[1] + 65536 * b[2] + 16777216 * b[3],
{
    reveal_with_fuel(crate::reader::le_value, 5);
    assert(b.drop_first().drop_first().drop_first().drop_first().len() == 0);
}

/// Versions 2 and 3 of the format are read alike: whatever else a file holds, setting its
/// version field to 2 or to 3 gives the same header (or the same refusal), and never a
/// refusal of the version.
pub proof fn lemma_versions_2_and_3_read_alike(data: Seq<u8>)
    requires
        data.len() >= 8,
    ensures
        header_at(with_version(data, 2)) == header_at(with_version(data, 3)),
        !(header_at(with_version(data, 2)) matches Err(HeaderFail::BadVersion(_))),
{
    let d2 = with_version(data, 2);
    let d3 = with_version(data, 3);
    assert(agree_from(d2, d3, 8));
    assert(d2.subrange(0, 4) =~= d3.subrange(0, 4));
    lemma_le4(d2.subrange(4, 8));
    lemma_le4(d3.subrange(4, 8));
    assert(fixed_at(d2, 4, 4) == Ok::<(nat, int), ReadFail>((2nat, 8int)));
    assert(fixed_at(d3, 4, 4) == Ok::<(nat, int), ReadFail>((3nat, 8int)));
    assert((2nat as u32) == 2u32);
    lemma_fixed_local(d2, d3, 8, 8, 8);
    lemma_fixed_local(d2, d3, 8, 16, 8);
    if let Ok((n_meta, p4)) = fixed_at(d2, 16, 8) {
        if let Ok((_, p5)) = entries_at(d2, p4, n_meta) {
            if let Ok((n_tensors, _)) = fixed_at(d2, 8, 8) {
                lemma_infos_fail(d2, p5, n_tensors);
            }
        }
        lemma_entries_local(d2, d3, 8, p4, n_meta);
        if let Ok((_, p5)) = entries_at(d2, p4, n_meta) {
            if let Ok((n_tensors, _)) = fixed_at(d2, 8, 8) {
                lemma_infos_local(d2, d3, 8, p5, n_tensors);
            }
        }
    }
}

/// A header is refused for its version exactly when it has the magic and its version
/// field is neither 2 nor 3; the refusal carries that version.
pub proof fn lemma_version_refusal(data: Seq<u8>)
    ensures
        (header_at(data) matches Err(HeaderFail::BadVersion(_))) <==> (data.len() >= 8 && magic_field(data)
            == GGUF_MAGIC && version_field(data) != 2 && version_field(data) != 3),
        header_at(data) matches Err(HeaderFail::BadVersion(v)) ==> v == version_field(data),
{
    if data.len() >= 8 {
        lemma_le4(data.subrange(0, 4));
        lemma_le4(data.subrange(4, 8));
        assert(version_field(data) < 0x1_0000_0000);
        assert(magic_field(data) < 0x1_0000_0000);
        assert(crate::reader::bytes_at(data, 0, 4) == Some(data.subrange(0, 4)));
        assert(crate::reader::bytes_at(data, 4, 4) == Some(data.subrange(4, 8)));
        assert(fixed_at(data, 0, 4) == Ok::<(nat, int), ReadFail>((magic_field(data), 4int)));
        assert(fixed_at(data, 4, 4) == Ok::<(nat, int), ReadFail>((version_field(data), 8int)));
        assert((magic_field(data) as u32) as nat == magic_field(data));
        assert((version_field(data) as u32) as nat == version_field(data));
        if let Ok((n_tensors, p3)) = fixed_at(data, 8, 8) {
            if let Ok((n_meta, p4)) = fixed_at(data, p3, 8) {
                if let Ok((_, p5)) = entries_at(data, p4, n_meta) {
                    lemma_infos_fail(data, p5, n_tensors);
                }
            }
        }
    } else {
        assert(fixed_at(data, 4, 4) is Err || fixed_at(data, 0, 4) is Err);
    }
}

} // verus!

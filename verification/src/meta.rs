//! GGUF metadata: typed values and a key-ordered table of them.
use vstd::prelude::*;

use crate::error::{FellmError, Result};
use crate::reader::{Reader, bytes_at, gguf_string_at, le_value, to_signed};
use crate::text::{chars_lt, str_equal, str_less};

verus! {

/// GGUF metadata value types (matches `gguf_metadata_value_type`).
#[derive(Debug, Clone, Copy, PartialEq, Eq, Structural)]
pub enum MetaKind {
    /// u8
    U8,
    /// i8
    I8,
    /// u16
    U16,
    /// i16
    I16,
    /// u32
    U32,
    /// i32
    I32,
    /// f32
    F32,
    /// bool
    Bool,
    /// string
    String,
    /// array
    Array,
    /// u64
    U64,
    /// i64
    I64,
    /// f64
    F64,
}

impl MetaKind {
    /// The numeric code of the kind in a GGUF file.
    pub open spec fn code(self) -> u32 {
        match self {
            MetaKind::U8 => 0,
            MetaKind::I8 => 1,
            MetaKind::U16 => 2,
            MetaKind::I16 => 3,
            MetaKind::U32 => 4,
            MetaKind::I32 => 5,
            MetaKind::F32 => 6,
            MetaKind::Bool => 7,
            MetaKind::String => 8,
            MetaKind::Array => 9,
            MetaKind::U64 => 10,
            MetaKind::I64 => 11,
            MetaKind::F64 => 12,
        }
    }

    /// The kind whose code is `code`, if any.
    pub open spec fn spec_from_code(code: u32) -> Option<MetaKind> {
        match code {
            0 => Some(MetaKind::U8),
            1 => Some(MetaKind::I8),
            2 => Some(MetaKind::U16),
            3 => Some(MetaKind::I16),
            4 => Some(MetaKind::U32),
            5 => Some(MetaKind::I32),
            6 => Some(MetaKind::F32),
            7 => Some(MetaKind::Bool),
            8 => Some(MetaKind::String),
            9 => Some(MetaKind::Array),
            10 => Some(MetaKind::U64),
            11 => Some(MetaKind::I64),
            12 => Some(MetaKind::F64),
            _ => None,
        }
    }

    /// Lower-case name of the kind.
    pub open spec fn spec_name(self) -> Seq<char> {
        match self {
            MetaKind::U8 => "u8"@,
            MetaKind::I8 => "i8"@,
            MetaKind::U16 => "u16"@,
            MetaKind::I16 => "i16"@,
            MetaKind::U32 => "u32"@,
            MetaKind::I32 => "i32"@,
            MetaKind::F32 => "f32"@,
            MetaKind::Bool => "bool"@,
            MetaKind::String => "string"@,
            MetaKind::Array => "array"@,
            MetaKind::U64 => "u64"@,
            MetaKind::I64 => "i64"@,
            MetaKind::F64 => "f64"@,
        }
    }

    /// Decode a kind from its numeric code.
    pub fn from_code(code: u32) -> (r: Result<MetaKind>)
        ensures
            r matches Ok(k) ==> Some(k) == Self::spec_from_code(code),
            r is Err <==> Self::spec_from_code(code) is None,
            r matches Err(e) ==> e is Parse,
    {
        match code {
            0 => Ok(MetaKind::U8),
            1 => Ok(MetaKind::I8),
            2 => Ok(MetaKind::U16),
            3 => Ok(MetaKind::I16),
            4 => Ok(MetaKind::U32),
            5 => Ok(MetaKind::I32),
            6 => Ok(MetaKind::F32),
            7 => Ok(MetaKind::Bool),
            8 => Ok(MetaKind::String),
            9 => Ok(MetaKind::Array),
            10 => Ok(MetaKind::U64),
            11 => Ok(MetaKind::I64),
            12 => Ok(MetaKind::F64),
            other => Err(FellmError::Parse(unknown_kind_message(other))),
        }
    }

    /// Lower-case name of the kind.
    pub fn name(self) -> (s: &'static str)
        ensures
            s@ == self.spec_name(),
    {
        match self {
            MetaKind::U8 => { proof { reveal_strlit("u8"); } "u8" }
            MetaKind::I8 => { proof { reveal_strlit("i8"); } "i8" }
            MetaKind::U16 => { proof { reveal_strlit("u16"); } "u16" }
            MetaKind::I16 => { proof { reveal_strlit("i16"); } "i16" }
            MetaKind::U32 => { proof { reveal_strlit("u32"); } "u32" }
            MetaKind::I32 => { proof { reveal_strlit("i32"); } "i32" }
            MetaKind::F32 => { proof { reveal_strlit("f32"); } "f32" }
            MetaKind::Bool => { proof { reveal_strlit("bool"); } "bool" }
            MetaKind::String => { proof { reveal_strlit("string"); } "string" }
            MetaKind::Array => { proof { reveal_strlit("array"); } "array" }
            MetaKind::U64 => { proof { reveal_strlit("u64"); } "u64" }
            MetaKind::I64 => { proof { reveal_strlit("i64"); } "i64" }
            MetaKind::F64 => { proof { reveal_strlit("f64"); } "f64" }
        }
    }
}

/// Message for an unknown metadata kind code.
#[verifier::external_body]
fn unknown_kind_message(code: u32) -> String {
    format!("unknown meta kind {code}")
}

/// One non-array metadata value, as a mathematical value. Floating-point values
/// are held as their IEEE-754 bit patterns.
pub enum MetaItem {
    /// U8
    U8(u8),
    /// I8
    I8(i8),
    /// U16
    U16(u16),
    /// I16
    I16(i16),
    /// U32
    U32(u32),
    /// I32
    I32(i32),
    /// F32
    F32(u32),
    /// Bool
    Bool(bool),
    /// String
    String(Seq<char>),
    /// U64
    U64(u64),
    /// I64
    I64(i64),
    /// F64
    F64(u64),
}

/// A metadata value as a mathematical value.
pub enum MetaModel {
    /// A single value.
    Item(MetaItem),
    /// A homogeneous array: element kind and elements.
    Array(MetaKind, Seq<MetaItem>),
}

/// Why reading a metadata value failed.
pub enum ReadFail {
    /// The input ended too early.
    Truncated,
    /// A string was not valid UTF-8.
    BadUtf8,
    /// An unknown kind code.
    UnknownKind,
    /// An array of arrays.
    NestedArray,
}

/// The library error that reports a read failure.
pub open spec fn fail_error(f: ReadFail, e: FellmError) -> bool {
    match f {
        ReadFail::BadUtf8 => e is InvalidUtf8,
        _ => e is Parse,
    }
}

/// An unsigned fixed-width value of `n` bytes at `pos`.
pub open spec fn fixed_at(data: Seq<u8>, pos: int, n: int) -> core::result::Result<(nat, int), ReadFail> {
    match bytes_at(data, pos, n) {
        Some(b) => Ok((le_value(b), pos + n)),
        None => Err(ReadFail::Truncated),
    }
}

/// One value of the non-array kind `kind` stored at `pos`, and the position after it.
pub open spec fn item_at(kind: MetaKind, data: Seq<u8>, pos: int) -> core::result::Result<(MetaItem, int), ReadFail> {
    match kind {
        MetaKind::String => match gguf_string_at(data, pos) {
            Ok((s, end)) => Ok((MetaItem::String(s), end)),
            Err(true) => Err(ReadFail::Truncated),
            Err(false) => Err(ReadFail::BadUtf8),
        },
        MetaKind::Array => Err(ReadFail::NestedArray),
        _ => {
            let width: int = match kind {
                MetaKind::U8 | MetaKind::I8 | MetaKind::Bool => 1,
                MetaKind::U16 | MetaKind::I16 => 2,
                MetaKind::U32 | MetaKind::I32 | MetaKind::F32 => 4,
                _ => 8,
            };
            match fixed_at(data, pos, width) {
                Err(f) => Err(f),
                Ok((v, end)) => Ok((
                    match kind {
                        MetaKind::U8 => MetaItem::U8(v as u8),
                        MetaKind::I8 => MetaItem::I8(to_signed((v as u8) as nat, 8) as i8),
                        MetaKind::U16 => MetaItem::U16(v as u16),
                        MetaKind::I16 => MetaItem::I16(to_signed((v as u16) as nat, 16) as i16),
                        MetaKind::U32 => MetaItem::U32(v as u32),
                        MetaKind::I32 => MetaItem::I32(to_signed((v as u32) as nat, 32) as i32),
                        MetaKind::F32 => MetaItem::F32(v as u32),
                        MetaKind::Bool => MetaItem::Bool((v as u8) != 0),
                        MetaKind::U64 => MetaItem::U64(v as u64),
                        MetaKind::I64 => MetaItem::I64(to_signed((v as u64) as nat, 64) as i64),
                        _ => MetaItem::F64(v as u64),
                    },
                    end,
                )),
            }
        },
    }
}

/// `n` consecutive values of kind `kind` starting at `pos`.
pub open spec fn items_at(kind: MetaKind, data: Seq<u8>, pos: int, n: nat) -> core::result::Result<(Seq<MetaItem>, int), ReadFail>
    decreases n,
{
    if n == 0 {
        Ok((Seq::empty(), pos))
    } else {
        match items_at(kind, data, pos, (n - 1) as nat) {
            Err(f) => Err(f),
            Ok((xs, mid)) => match item_at(kind, data, mid) {
                Err(f) => Err(f),
                Ok((x, end)) => Ok((xs.push(x), end)),
            },
        }
    }
}

/// The value of kind `kind` stored at `pos` (arrays: element kind code, `u64` count, elements).
pub open spec fn value_of_kind_at(kind: MetaKind, data: Seq<u8>, pos: int) -> core::result::Result<(MetaModel, int), ReadFail> {
    if kind == MetaKind::Array {
        match fixed_at(data, pos, 4) {
            Err(f) => Err(f),
            Ok((code, p1)) => match MetaKind::spec_from_code(code as u32) {
                None => Err(ReadFail::UnknownKind),
                Some(elem) => match fixed_at(data, p1, 8) {
                    Err(f) => Err(f),
                    Ok((n, p2)) => if elem == MetaKind::Array {
                        Err(ReadFail::NestedArray)
                    } else {
                        match items_at(elem, data, p2, ((n as u64) as usize) as nat) {
                            Err(f) => Err(f),
                            Ok((xs, end)) => Ok((MetaModel::Array(elem, xs), end)),
                        }
                    },
                },
            },
        }
    } else {
        match item_at(kind, data, pos) {
            Err(f) => Err(f),
            Ok((x, end)) => Ok((MetaModel::Item(x), end)),
        }
    }
}

/// A metadata value stored at `pos`: a `u32` kind code followed by the value.
pub open spec fn value_at(data: Seq<u8>, pos: int) -> core::result::Result<(MetaModel, int), ReadFail> {
    match fixed_at(data, pos, 4) {
        Err(f) => Err(f),
        Ok((code, p1)) => match MetaKind::spec_from_code(code as u32) {
            None => Err(ReadFail::UnknownKind),
            Some(kind) => value_of_kind_at(kind, data, p1),
        },
    }
}

/// A typed metadata value. `F32` and `F64` hold IEEE-754 bit patterns.
#[derive(Debug, Clone)]
pub enum MetaValue {
    /// U8
    U8(u8),
    /// I8
    I8(i8),
    /// U16
    U16(u16),
    /// I16
    I16(i16),
    /// U32
    U32(u32),
    /// I32
    I32(i32),
    /// F32
    F32(u32),
    /// Bool
    Bool(bool),
    /// String
    String(String),
    /// U64
    U64(u64),
    /// I64
    I64(i64),
    /// F64
    F64(u64),
    /// Array of homogeneous values.
    Array(MetaArray),
}

/// A metadata array, typed. `F32` and `F64` hold IEEE-754 bit patterns.
#[derive(Debug, Clone)]
pub enum MetaArray {
    /// U8 array.
    U8(Vec<u8>),
    /// I8 array.
    I8(Vec<i8>),
    /// U16 array.
    U16(Vec<u16>),
    /// I16 array.
    I16(Vec<i16>),
    /// U32 array.
    U32(Vec<u32>),
    /// I32 array.
    I32(Vec<i32>),
    /// F32 array.
    F32(Vec<u32>),
    /// Bool array.
    Bool(Vec<bool>),
    /// String array.
    String(Vec<String>),
    /// U64 array.
    U64(Vec<u64>),
    /// I64 array.
    I64(Vec<i64>),
    /// F64 array.
    F64(Vec<u64>),
}

impl MetaArray {
    /// Element kind.
    pub open spec fn kind(&self) -> MetaKind {
        match self {
            MetaArray::U8(_) => MetaKind::U8,
            MetaArray::I8(_) => MetaKind::I8,
            MetaArray::U16(_) => MetaKind::U16,
            MetaArray::I16(_) => MetaKind::I16,
            MetaArray::U32(_) => MetaKind::U32,
            MetaArray::I32(_) => MetaKind::I32,
            MetaArray::F32(_) => MetaKind::F32,
            MetaArray::Bool(_) => MetaKind::Bool,
            MetaArray::String(_) => MetaKind::String,
            MetaArray::U64(_) => MetaKind::U64,
            MetaArray::I64(_) => MetaKind::I64,
            MetaArray::F64(_) => MetaKind::F64,
        }
    }

    /// Elements as mathematical values.
    pub open spec fn items(&self) -> Seq<MetaItem> {
        match self {
            MetaArray::U8(v) => v@.map_values(|x: u8| MetaItem::U8(x)),
            MetaArray::I8(v) => v@.map_values(|x: i8| MetaItem::I8(x)),
            MetaArray::U16(v) => v@.map_values(|x: u16| MetaItem::U16(x)),
            MetaArray::I16(v) => v@.map_values(|x: i16| MetaItem::I16(x)),
            MetaArray::U32(v) => v@.map_values(|x: u32| MetaItem::U32(x)),
            MetaArray::I32(v) => v@.map_values(|x: i32| MetaItem::I32(x)),
            MetaArray::F32(v) => v@.map_values(|x: u32| MetaItem::F32(x)),
            MetaArray::Bool(v) => v@.map_values(|x: bool| MetaItem::Bool(x)),
            MetaArray::String(v) => v@.map_values(|x: String| MetaItem::String(x@)),
            MetaArray::U64(v) => v@.map_values(|x: u64| MetaItem::U64(x)),
            MetaArray::I64(v) => v@.map_values(|x: i64| MetaItem::I64(x)),
            MetaArray::F64(v) => v@.map_values(|x: u64| MetaItem::F64(x)),
        }
    }

    /// Length of the array.
    pub fn len(&self) -> (n: usize)
        ensures
            n == self.items().len(),
    {
        match self {
            MetaArray::U8(v) => v.len(),
            MetaArray::I8(v) => v.len(),
            MetaArray::U16(v) => v.len(),
            MetaArray::I16(v) => v.len(),
            MetaArray::U32(v) => v.len(),
            MetaArray::I32(v) => v.len(),
            MetaArray::F32(v) => v.len(),
            MetaArray::Bool(v) => v.len(),
            MetaArray::String(v) => v.len(),
            MetaArray::U64(v) => v.len(),
            MetaArray::I64(v) => v.len(),
            MetaArray::F64(v) => v.len(),
        }
    }

    /// True if empty.
    pub fn is_empty(&self) -> (b: bool)
        ensures
            b == (self.items().len() == 0),
    {
        self.len() == 0
    }

    /// An empty array of element kind `kind`.
    fn empty_of(kind: MetaKind) -> (a: MetaArray)
        requires
            kind != MetaKind::Array,
        ensures
            a.kind() == kind,
            a.items() == Seq::<MetaItem>::empty(),
    {
        let a = match kind {
            MetaKind::U8 => MetaArray::U8(Vec::new()),
            MetaKind::I8 => MetaArray::I8(Vec::new()),
            MetaKind::U16 => MetaArray::U16(Vec::new()),
            MetaKind::I16 => MetaArray::I16(Vec::new()),
            MetaKind::U32 => MetaArray::U32(Vec::new()),
            MetaKind::I32 => MetaArray::I32(Vec::new()),
            MetaKind::F32 => MetaArray::F32(Vec::new()),
            MetaKind::Bool => MetaArray::Bool(Vec::new()),
            MetaKind::String => MetaArray::String(Vec::new()),
            MetaKind::U64 => MetaArray::U64(Vec::new()),
            MetaKind::I64 => MetaArray::I64(Vec::new()),
            MetaKind::F64 => MetaArray::F64(Vec::new()),
            MetaKind::Array => MetaArray::U8(Vec::new()),
        };
        assert(a.items() =~= Seq::<MetaItem>::empty());
        a
    }

    /// Append a single value of the array's element kind.
    fn push_value(&mut self, v: MetaValue)
        requires
            v.model() matches MetaModel::Item(x) && item_kind(x) == old(self).kind(),
        ensures
            final(self).kind() == old(self).kind(),
            v.model() matches MetaModel::Item(x) && final(self).items() == old(self).items().push(x),
    {
        match (self, v) {
            (MetaArray::U8(a), MetaValue::U8(x)) => {
                let ghost before = a@;
                a.push(x);
                assert(a@.map_values(|y: u8| MetaItem::U8(y)) =~= before.map_values(|y: u8| MetaItem::U8(y)).push(MetaItem::U8(x)));
            },
            (MetaArray::I8(a), MetaValue::I8(x)) => {
                let ghost before = a@;
                a.push(x);
                assert(a@.map_values(|y: i8| MetaItem::I8(y)) =~= before.map_values(|y: i8| MetaItem::I8(y)).push(MetaItem::I8(x)));
            },
            (MetaArray::U16(a), MetaValue::U16(x)) => {
                let ghost before = a@;
                a.push(x);
                assert(a@.map_values(|y: u16| MetaItem::U16(y)) =~= before.map_values(|y: u16| MetaItem::U16(y)).push(MetaItem::U16(x)));
            },
            (MetaArray::I16(a), MetaValue::I16(x)) => {
                let ghost before = a@;
                a.push(x);
                assert(a@.map_values(|y: i16| MetaItem::I16(y)) =~= before.map_values(|y: i16| MetaItem::I16(y)).push(MetaItem::I16(x)));
            },
            (MetaArray::U32(a), MetaValue::U32(x)) => {
                let ghost before = a@;
                a.push(x);
                assert(a@.map_values(|y: u32| MetaItem::U32(y)) =~= before.map_values(|y: u32| MetaItem::U32(y)).push(MetaItem::U32(x)));
            },
            (MetaArray::I32(a), MetaValue::I32(x)) => {
                let ghost before = a@;
                a.push(x);
                assert(a@.map_values(|y: i32| MetaItem::I32(y)) =~= before.map_values(|y: i32| MetaItem::I32(y)).push(MetaItem::I32(x)));
            },
            (MetaArray::F32(a), MetaValue::F32(x)) => {
                let ghost before = a@;
                a.push(x);
                assert(a@.map_values(|y: u32| MetaItem::F32(y)) =~= before.map_values(|y: u32| MetaItem::F32(y)).push(MetaItem::F32(x)));
            },
            (MetaArray::Bool(a), MetaValue::Bool(x)) => {
                let ghost before = a@;
                a.push(x);
                assert(a@.map_values(|y: bool| MetaItem::Bool(y)) =~= before.map_values(|y: bool| MetaItem::Bool(y)).push(MetaItem::Bool(x)));
            },
            (MetaArray::String(a), MetaValue::String(x)) => {
                let ghost before = a@;
                a.push(x);
                assert(a@.map_values(|y: String| MetaItem::String(y@)) =~= before.map_values(|y: String| MetaItem::String(y@)).push(MetaItem::String(x@)));
            },
            (MetaArray::U64(a), MetaValue::U64(x)) => {
                let ghost before = a@;
                a.push(x);
                assert(a@.map_values(|y: u64| MetaItem::U64(y)) =~= before.map_values(|y: u64| MetaItem::U64(y)).push(MetaItem::U64(x)));
            },
            (MetaArray::I64(a), MetaValue::I64(x)) => {
                let ghost before = a@;
                a.push(x);
                assert(a@.map_values(|y: i64| MetaItem::I64(y)) =~= before.map_values(|y: i64| MetaItem::I64(y)).push(MetaItem::I64(x)));
            },
            (MetaArray::F64(a), MetaValue::F64(x)) => {
                let ghost before = a@;
                a.push(x);
                assert(a@.map_values(|y: u64| MetaItem::F64(y)) =~= before.map_values(|y: u64| MetaItem::F64(y)).push(MetaItem::F64(x)));
            },
            _ => {},
        }
    }
}

/// The kind of a single value.
pub open spec fn item_kind(x: MetaItem) -> MetaKind {
    match x {
        MetaItem::U8(_) => MetaKind::U8,
        MetaItem::I8(_) => MetaKind::I8,
        MetaItem::U16(_) => MetaKind::U16,
        MetaItem::I16(_) => MetaKind::I16,
        MetaItem::U32(_) => MetaKind::U32,
        MetaItem::I32(_) => MetaKind::I32,
        MetaItem::F32(_) => MetaKind::F32,
        MetaItem::Bool(_) => MetaKind::Bool,
        MetaItem::String(_) => MetaKind::String,
        MetaItem::U64(_) => MetaKind::U64,
        MetaItem::I64(_) => MetaKind::I64,
        MetaItem::F64(_) => MetaKind::F64,
    }
}

/// Lower-case name of the kind of a value.
pub open spec fn model_kind_name(m: MetaModel) -> Seq<char> {
    match m {
        MetaModel::Item(x) => item_kind(x).spec_name(),
        MetaModel::Array(_, _) => "array"@,
    }
}

impl MetaValue {
    /// The value as a mathematical value.
    pub open spec fn model(&self) -> MetaModel {
        match self {
            MetaValue::U8(x) => MetaModel::Item(MetaItem::U8(*x)),
            MetaValue::I8(x) => MetaModel::Item(MetaItem::I8(*x)),
            MetaValue::U16(x) => MetaModel::Item(MetaItem::U16(*x)),
            MetaValue::I16(x) => MetaModel::Item(MetaItem::I16(*x)),
            MetaValue::U32(x) => MetaModel::Item(MetaItem::U32(*x)),
            MetaValue::I32(x) => MetaModel::Item(MetaItem::I32(*x)),
            MetaValue::F32(x) => MetaModel::Item(MetaItem::F32(*x)),
            MetaValue::Bool(x) => MetaModel::Item(MetaItem::Bool(*x)),
            MetaValue::String(x) => MetaModel::Item(MetaItem::String(x@)),
            MetaValue::U64(x) => MetaModel::Item(MetaItem::U64(*x)),
            MetaValue::I64(x) => MetaModel::Item(MetaItem::I64(*x)),
            MetaValue::F64(x) => MetaModel::Item(MetaItem::F64(*x)),
            MetaValue::Array(a) => MetaModel::Array(a.kind(), a.items()),
        }
    }

    /// Lower-case name of the value's kind.
    fn kind_name(&self) -> (s: &'static str)
        ensures
            s@ == model_kind_name(self.model()),
    {
        match self {
            MetaValue::U8(_) => MetaKind::U8.name(),
            MetaValue::I8(_) => MetaKind::I8.name(),
            MetaValue::U16(_) => MetaKind::U16.name(),
            MetaValue::I16(_) => MetaKind::I16.name(),
            MetaValue::U32(_) => MetaKind::U32.name(),
            MetaValue::I32(_) => MetaKind::I32.name(),
            MetaValue::F32(_) => MetaKind::F32.name(),
            MetaValue::Bool(_) => MetaKind::Bool.name(),
            MetaValue::String(_) => MetaKind::String.name(),
            MetaValue::U64(_) => MetaKind::U64.name(),
            MetaValue::I64(_) => MetaKind::I64.name(),
            MetaValue::F64(_) => MetaKind::F64.name(),
            MetaValue::Array(_) => MetaKind::Array.name(),
        }
    }
}

/// Read one value of the non-array kind `kind` from `r`.
fn read_item(r: &mut Reader<'_>, kind: MetaKind) -> (res: Result<MetaValue>)
    requires
        kind != MetaKind::Array,
    ensures
        final(r).data() == old(r).data(),
        match item_at(kind, old(r).data(), old(r).cursor() as int) {
            Ok((x, end)) => res matches Ok(v) && v.model() == MetaModel::Item(x)
                && final(r).cursor() == end,
            Err(f) => res matches Err(e) && fail_error(f, e),
        },
{
    match kind {
        MetaKind::U8 => Ok(MetaValue::U8(r.u8()?)),
        MetaKind::I8 => Ok(MetaValue::I8(r.i8()?)),
        MetaKind::U16 => Ok(MetaValue::U16(r.u16()?)),
        MetaKind::I16 => Ok(MetaValue::I16(r.i16()?)),
        MetaKind::U32 => Ok(MetaValue::U32(r.u32()?)),
        MetaKind::I32 => Ok(MetaValue::I32(r.i32()?)),
        MetaKind::F32 => Ok(MetaValue::F32(r.u32()?)),
        MetaKind::Bool => Ok(MetaValue::Bool(r.u8()? != 0)),
        MetaKind::String => Ok(MetaValue::String(r.gguf_string()?)),
        MetaKind::U64 => Ok(MetaValue::U64(r.u64()?)),
        MetaKind::I64 => Ok(MetaValue::I64(r.i64()?)),
        MetaKind::F64 => Ok(MetaValue::F64(r.u64()?)),
        MetaKind::Array => Err(FellmError::parse("nested arrays are not permitted in GGUF")),
    }
}

/// Once reading `i` elements fails, reading more fails the same way.
proof fn lemma_items_err_persists(kind: MetaKind, data: Seq<u8>, pos: int, i: nat, n: nat)
    requires
        i <= n,
        items_at(kind, data, pos, i) is Err,
    ensures
        items_at(kind, data, pos, n) == items_at(kind, data, pos, i),
    decreases n,
{
    if n > i {
        lemma_items_err_persists(kind, data, pos, i, (n - 1) as nat);
    }
}

/// Read one metadata value (kind code, then payload) from `r`.
pub fn read_value(r: &mut Reader<'_>) -> (res: Result<MetaValue>)
    ensures
        final(r).data() == old(r).data(),
        match value_at(old(r).data(), old(r).cursor() as int) {
            Ok((m, end)) => res matches Ok(v) && v.model() == m && final(r).cursor() == end,
            Err(f) => res matches Err(e) && fail_error(f, e),
        },
{
    let kind = MetaKind::from_code(r.u32()?)?;
    read_value_of_kind(r, kind)
}

fn read_value_of_kind(r: &mut Reader<'_>, kind: MetaKind) -> (res: Result<MetaValue>)
    ensures
        final(r).data() == old(r).data(),
        match value_of_kind_at(kind, old(r).data(), old(r).cursor() as int) {
            Ok((m, end)) => res matches Ok(v) && v.model() == m && final(r).cursor() == end,
            Err(f) => res matches Err(e) && fail_error(f, e),
        },
{
    match kind {
        MetaKind::Array => Ok(MetaValue::Array(read_array(r)?)),
        _ => read_item(r, kind),
    }
}

fn read_array(r: &mut Reader<'_>) -> (res: Result<MetaArray>)
    ensures
        final(r).data() == old(r).data(),
        match value_of_kind_at(MetaKind::Array, old(r).data(), old(r).cursor() as int) {
            Ok((m, end)) => res matches Ok(a) && MetaModel::Array(a.kind(), a.items()) == m
                && final(r).cursor() == end,
            Err(f) => res matches Err(e) && fail_error(f, e),
        },
{
    let elem_kind = MetaKind::from_code(r.u32()?)?;
    let n = r.u64()? as usize;
    if let MetaKind::Array = elem_kind {
        return Err(FellmError::parse("nested arrays are not permitted in GGUF"));
    }
    let ghost data = r.data();
    let ghost start = r.cursor() as int;
    let ghost expected = match items_at(elem_kind, data, start, n as nat) {
        Err(f) => Err(f),
        Ok((xs, end)) => Ok((MetaModel::Array(elem_kind, xs), end)),
    };
    assert(value_of_kind_at(MetaKind::Array, data, old(r).cursor() as int) == expected);
    let mut arr = MetaArray::empty_of(elem_kind);
    let mut i: usize = 0;
    while i < n
        invariant
            r.data() == data,
            data == old(r).data(),
            value_of_kind_at(MetaKind::Array, data, old(r).cursor() as int) == expected,
            expected == match items_at(elem_kind, data, start, n as nat) {
                Err(f) => Err(f),
                Ok((xs, end)) => Ok((MetaModel::Array(elem_kind, xs), end)),
            },
            elem_kind != MetaKind::Array,
            arr.kind() == elem_kind,
            i <= n,
            items_at(elem_kind, data, start, i as nat) == Ok::<(Seq<MetaItem>, int), ReadFail>((arr.items(), r.cursor() as int)),
        decreases n - i,
    {
        let v = match read_item(r, elem_kind) {
            Ok(v) => v,
            Err(e) => {
                proof {
                    lemma_items_err_persists(elem_kind, data, start, (i + 1) as nat, n as nat);
                }
                return Err(e);
            },
        };
        arr.push_value(v);
        i = i + 1;
    }
    Ok(arr)
}

/// The value stored under `k` in a table of (key, value) entries: the first match.
pub open spec fn lookup(entries: Seq<(Seq<char>, MetaModel)>, k: Seq<char>) -> Option<MetaModel>
    decreases entries.len(),
{
    if entries.len() == 0 {
        None
    } else if entries[0].0 == k {
        Some(entries[0].1)
    } else {
        lookup(entries.drop_first(), k)
    }
}

/// Keys strictly increasing in `str` order.
pub open spec fn keys_sorted(entries: Seq<(Seq<char>, MetaModel)>) -> bool {
    forall|i: int, j: int| 0 <= i < j < entries.len() ==> chars_lt(#[trigger] entries[i].0, #[trigger] entries[j].0)
}

/// In a table with sorted keys, the entry at index `i` is what its key looks up.
pub proof fn lemma_lookup_at(entries: Seq<(Seq<char>, MetaModel)>, i: int)
    requires
        keys_sorted(entries),
        0 <= i < entries.len(),
    ensures
        lookup(entries, entries[i].0) == Some(entries[i].1),
    decreases entries.len(),
{
    if i > 0 {
        crate::text::lemma_chars_lt_irreflexive(entries[i].0);
        assert(chars_lt(entries[0].0, entries[i].0));
        let rest = entries.drop_first();
        assert(rest[i - 1] == entries[i]);
        assert forall|a: int, b: int| 0 <= a < b < rest.len() implies chars_lt(
            #[trigger] rest[a].0,
            #[trigger] rest[b].0,
        ) by {
            assert(rest[a] == entries[a + 1] && rest[b] == entries[b + 1]);
        }
        lemma_lookup_at(rest, i - 1);
    }
}

/// A key held by no entry looks up nothing.
pub proof fn lemma_lookup_absent(entries: Seq<(Seq<char>, MetaModel)>, k: Seq<char>)
    requires
        forall|i: int| 0 <= i < entries.len() ==> #[trigger] entries[i].0 != k,
    ensures
        lookup(entries, k) is None,
    decreases entries.len(),
{
    if entries.len() > 0 {
        let rest = entries.drop_first();
        assert forall|i: int| 0 <= i < rest.len() implies #[trigger] rest[i].0 != k by {
            assert(rest[i] == entries[i + 1]);
        }
        lemma_lookup_absent(rest, k);
    }
}

/// Inserting (or replacing) a key at its ordered position keeps the keys sorted and
/// updates exactly that key.
proof fn lemma_insert_sorted(
    old_e: Seq<(Seq<char>, MetaModel)>,
    new_e: Seq<(Seq<char>, MetaModel)>,
    p: int,
    kv: Seq<char>,
    vm: MetaModel,
    replace: bool,
)
    requires
        new_e == if replace { old_e.update(p, (kv, vm)) } else { old_e.insert(p, (kv, vm)) },
        keys_sorted(old_e),
        0 <= p <= old_e.len(),
        forall|m: int| 0 <= m < p ==> chars_lt(#[trigger] old_e[m].0, kv),
        replace ==> p < old_e.len() && old_e[p].0 == kv,
        !replace ==> p == old_e.len() || chars_lt(kv, old_e[p].0),
    ensures
        keys_sorted(new_e),
        forall|key: Seq<char>| #[trigger] lookup(new_e, key)
            == if key == kv { Some(vm) } else { lookup(old_e, key) },
{
    if !replace {
        assert forall|m: int| p <= m < old_e.len() implies chars_lt(kv, #[trigger] old_e[m].0) by {
            if m > p {
                crate::text::lemma_chars_lt_transitive(kv, old_e[p].0, old_e[m].0);
            }
        }
    }
    assert forall|i: int, j: int| 0 <= i < j < new_e.len() implies chars_lt(
        #[trigger] new_e[i].0,
        #[trigger] new_e[j].0,
    ) by {
        if replace {
            assert(new_e[i].0 == old_e[i].0 && new_e[j].0 == old_e[j].0);
        } else {
            if j < p {
                assert(new_e[i] == old_e[i] && new_e[j] == old_e[j]);
            } else if j == p {
                assert(new_e[i] == old_e[i]);
            } else if i < p {
                assert(new_e[i] == old_e[i] && new_e[j] == old_e[j - 1]);
            } else if i == p {
                assert(new_e[j] == old_e[j - 1]);
            } else {
                assert(new_e[i] == old_e[i - 1] && new_e[j] == old_e[j - 1]);
            }
        }
    }
    assert forall|key: Seq<char>| #[trigger] lookup(new_e, key)
        == if key == kv { Some(vm) } else { lookup(old_e, key) } by {
        assert(new_e[p] == (kv, vm));
        lemma_lookup_at(new_e, p);
        if key != kv {
            if exists|i: int| 0 <= i < old_e.len() && #[trigger] old_e[i].0 == key {
                let i = choose|i: int| 0 <= i < old_e.len() && #[trigger] old_e[i].0 == key;
                lemma_lookup_at(old_e, i);
                let ni: int = if replace || i < p { i } else { i + 1 };
                assert(new_e[ni] == old_e[i]);
                lemma_lookup_at(new_e, ni);
            } else {
                assert forall|i: int| 0 <= i < new_e.len() implies #[trigger] new_e[i].0 != key by {
                    if replace || i < p {
                        if i != p {
                            assert(new_e[i] == old_e[i]);
                        }
                    } else if i > p {
                        assert(new_e[i] == old_e[i - 1]);
                    }
                }
                lemma_lookup_absent(new_e, key);
                lemma_lookup_absent(old_e, key);
            }
        }
    }
}

/// A metadata table indexed by string key, kept in key order.
#[derive(Debug)]
pub struct MetaMap {
    inner: Vec<(String, MetaValue)>,
}

impl MetaMap {
    /// The entries, in key order, as mathematical values.
    pub closed spec fn entries(&self) -> Seq<(Seq<char>, MetaModel)> {
        self.inner@.map_values(|e: (String, MetaValue)| (e.0@, e.1.model()))
    }

    /// The value stored under `k`, if any.
    pub open spec fn spec_get(&self, k: Seq<char>) -> Option<MetaModel> {
        lookup(self.entries(), k)
    }

    #[verifier::type_invariant]
    spec fn sorted(&self) -> bool {
        keys_sorted(self.entries())
    }

    /// Empty.
    pub fn new() -> (m: MetaMap)
        ensures
            m.entries() == Seq::<(Seq<char>, MetaModel)>::empty(),
    {
        let inner: Vec<(String, MetaValue)> = Vec::new();
        assert(inner@.map_values(|e: (String, MetaValue)| (e.0@, e.1.model())) =~= Seq::<(Seq<char>, MetaModel)>::empty());
        MetaMap { inner }
    }

    /// Insert a key/value, replacing any value already stored under the key.
    pub fn insert(&mut self, k: String, v: MetaValue)
        ensures
            forall|key: Seq<char>| #[trigger] final(self).spec_get(key)
                == if key == k@ { Some(v.model()) } else { old(self).spec_get(key) },
    {
        proof {
            use_type_invariant(&*self);
        }
        let ghost old_e = self.entries();
        let ghost kv = k@;
        let ghost vm = v.model();
        let mut inner: Vec<(String, MetaValue)> = Vec::new();
        std::mem::swap(&mut inner, &mut self.inner);
        assert(inner@.map_values(|e: (String, MetaValue)| (e.0@, e.1.model())) == old_e);
        let mut p: usize = 0;
        loop
            invariant
                p <= inner.len(),
                inner@.map_values(|e: (String, MetaValue)| (e.0@, e.1.model())) == old_e,
                forall|j: int| 0 <= j < p ==> chars_lt(#[trigger] old_e[j].0, kv),
                kv == k@,
            ensures
                p <= inner.len(),
                inner@.map_values(|e: (String, MetaValue)| (e.0@, e.1.model())) == old_e,
                forall|j: int| 0 <= j < p ==> chars_lt(#[trigger] old_e[j].0, kv),
                p < inner.len() ==> !chars_lt(old_e[p as int].0, kv),
            decreases inner.len() - p,
        {
            if p >= inner.len() {
                break;
            }
            proof {
                assert(old_e[p as int] == (inner@[p as int].0@, inner@[p as int].1.model()));
            }
            if !str_less(inner[p].0.as_str(), k.as_str()) {
                break;
            }
            p = p + 1;
        }
        let replace = p < inner.len() && str_equal(inner[p].0.as_str(), k.as_str());
        proof {
            if p < old_e.len() {
                assert(old_e[p as int] == (inner@[p as int].0@, inner@[p as int].1.model()));
            }
            if p < old_e.len() && !replace {
                crate::text::lemma_chars_lt_total(old_e[p as int].0, kv);
            }
        }
        if replace {
            inner.remove(p);
        }
        inner.insert(p, (k, v));
        proof {
            let new_e = inner@.map_values(|e: (String, MetaValue)| (e.0@, e.1.model()));
            let expect = if replace {
                old_e.update(p as int, (kv, vm))
            } else {
                old_e.insert(p as int, (kv, vm))
            };
            assert(new_e =~= expect);
            lemma_insert_sorted(old_e, new_e, p as int, kv, vm, replace);
        }
        self.inner = inner;
    }

    /// Get a raw value.
    pub fn get(&self, key: &str) -> (r: Option<&MetaValue>)
        ensures
            match self.spec_get(key@) {
                Some(m) => r matches Some(v) && v.model() == m,
                None => r is None,
            },
    {
        proof {
            use_type_invariant(self);
        }
        let ghost e = self.entries();
        let mut i: usize = 0;
        while i < self.inner.len()
            invariant
                i <= self.inner.len(),
                e == self.entries(),
                keys_sorted(e),
                forall|j: int| 0 <= j < i ==> #[trigger] e[j].0 != key@,
            decreases self.inner.len() - i,
        {
            if str_equal(self.inner[i].0.as_str(), key) {
                proof {
                    assert(e[i as int].0 == key@);
                    lemma_lookup_at(e, i as int);
                }
                return Some(&self.inner[i].1);
            }
            i = i + 1;
        }
        proof {
            lemma_lookup_absent(e, key@);
        }
        None
    }

    /// All entries, in key order.
    pub fn iter(&self) -> (s: &[(String, MetaValue)])
        ensures
            s@.map_values(|e: (String, MetaValue)| (e.0@, e.1.model())) == self.entries(),
    {
        self.inner.as_slice()
    }

    /// The architecture identifier, from `general.architecture`.
    pub fn arch(&self) -> (r: Result<&str>)
        ensures
            spec_string_result(self.spec_get("general.architecture"@), "general.architecture"@, r),
    {
        proof {
            reveal_strlit("general.architecture");
        }
        self.get_string("general.architecture")
    }

    /// Fetch a string.
    pub fn get_string(&self, key: &str) -> (r: Result<&str>)
        ensures
            spec_string_result(self.spec_get(key@), key@, r),
    {
        match self.get(key) {
            None => Err(FellmError::MetadataKeyNotFound(key.to_owned())),
            Some(MetaValue::String(s)) => Ok(s.as_str()),
            Some(other) => Err(type_mismatch(key, "string", other)),
        }
    }

    /// Fetch a u32 (accepts widening from u8/u16 too).
    pub fn get_u32(&self, key: &str) -> (r: Result<u32>)
        ensures
            match self.spec_get(key@) {
                None => r matches Err(FellmError::MetadataKeyNotFound(k)) && k@ == key@,
                Some(MetaModel::Item(MetaItem::U32(v))) => r == Ok::<u32, FellmError>(v),
                Some(MetaModel::Item(MetaItem::U16(v))) => r == Ok::<u32, FellmError>(v as u32),
                Some(MetaModel::Item(MetaItem::U8(v))) => r == Ok::<u32, FellmError>(v as u32),
                Some(m) => mismatch(r, key@, "u32"@, m),
            },
    {
        match self.get(key) {
            None => Err(FellmError::MetadataKeyNotFound(key.to_owned())),
            Some(MetaValue::U32(v)) => Ok(*v),
            Some(MetaValue::U16(v)) => Ok(*v as u32),
            Some(MetaValue::U8(v)) => Ok(*v as u32),
            Some(other) => Err(type_mismatch(key, "u32", other)),
        }
    }

    /// Fetch a u64 (accepts widening from u8/u16/u32).
    pub fn get_u64(&self, key: &str) -> (r: Result<u64>)
        ensures
            match self.spec_get(key@) {
                None => r matches Err(FellmError::MetadataKeyNotFound(k)) && k@ == key@,
                Some(MetaModel::Item(MetaItem::U64(v))) => r == Ok::<u64, FellmError>(v),
                Some(MetaModel::Item(MetaItem::U32(v))) => r == Ok::<u64, FellmError>(v as u64),
                Some(MetaModel::Item(MetaItem::U16(v))) => r == Ok::<u64, FellmError>(v as u64),
                Some(MetaModel::Item(MetaItem::U8(v))) => r == Ok::<u64, FellmError>(v as u64),
                Some(m) => mismatch(r, key@, "u64"@, m),
            },
    {
        match self.get(key) {
            None => Err(FellmError::MetadataKeyNotFound(key.to_owned())),
            Some(MetaValue::U64(v)) => Ok(*v),
            Some(MetaValue::U32(v)) => Ok(*v as u64),
            Some(MetaValue::U16(v)) => Ok(*v as u64),
            Some(MetaValue::U8(v)) => Ok(*v as u64),
            Some(other) => Err(type_mismatch(key, "u64", other)),
        }
    }

    /// Fetch a bool.
    pub fn get_bool(&self, key: &str) -> (r: Result<bool>)
        ensures
            match self.spec_get(key@) {
                None => r matches Err(FellmError::MetadataKeyNotFound(k)) && k@ == key@,
                Some(MetaModel::Item(MetaItem::Bool(v))) => r == Ok::<bool, FellmError>(v),
                Some(m) => mismatch(r, key@, "bool"@, m),
            },
    {
        match self.get(key) {
            None => Err(FellmError::MetadataKeyNotFound(key.to_owned())),
            Some(MetaValue::Bool(v)) => Ok(*v),
            Some(other) => Err(type_mismatch(key, "bool", other)),
        }
    }

    /// Fetch a string array.
    pub fn get_string_array(&self, key: &str) -> (r: Result<&[String]>)
        ensures
            match self.spec_get(key@) {
                None => r matches Err(FellmError::MetadataKeyNotFound(k)) && k@ == key@,
                Some(MetaModel::Array(MetaKind::String, xs)) => r matches Ok(a)
                    && a@.map_values(|s: String| MetaItem::String(s@)) == xs,
                Some(m) => mismatch(r, key@, "array<string>"@, m),
            },
    {
        match self.get(key) {
            None => Err(FellmError::MetadataKeyNotFound(key.to_owned())),
            Some(MetaValue::Array(MetaArray::String(v))) => Ok(v.as_slice()),
            Some(other) => Err(type_mismatch(key, "array<string>", other)),
        }
    }

    /// Fetch an i32 array.
    pub fn get_i32_array(&self, key: &str) -> (r: Result<&[i32]>)
        ensures
            match self.spec_get(key@) {
                None => r matches Err(FellmError::MetadataKeyNotFound(k)) && k@ == key@,
                Some(MetaModel::Array(MetaKind::I32, xs)) => r matches Ok(a)
                    && a@.map_values(|x: i32| MetaItem::I32(x)) == xs,
                Some(m) => mismatch(r, key@, "array<i32>"@, m),
            },
    {
        match self.get(key) {
            None => Err(FellmError::MetadataKeyNotFound(key.to_owned())),
            Some(MetaValue::Array(MetaArray::I32(v))) => Ok(v.as_slice()),
            Some(other) => Err(type_mismatch(key, "array<i32>", other)),
        }
    }
}

/// The number `get_u32` gives for a stored value, when it gives one.
pub open spec fn u32_value(v: Option<MetaModel>) -> Option<u32> {
    match v {
        Some(MetaModel::Item(MetaItem::U32(x))) => Some(x),
        Some(MetaModel::Item(MetaItem::U16(x))) => Some(x as u32),
        Some(MetaModel::Item(MetaItem::U8(x))) => Some(x as u32),
        _ => None,
    }
}

/// `r` is what `get_u32` reports under `key` for a stored value it gives no number for.
pub open spec fn u32_refusal<T>(v: Option<MetaModel>, key: Seq<char>, r: Result<T>) -> bool {
    match v {
        None => r matches Err(FellmError::MetadataKeyNotFound(k)) && k@ == key,
        Some(m) => mismatch(r, key, "u32"@, m),
    }
}

/// How many strings `get_string_array` gives for a stored value, when it gives them.
pub open spec fn string_count(v: Option<MetaModel>) -> Option<nat> {
    match v {
        Some(MetaModel::Array(MetaKind::String, xs)) => Some(xs.len()),
        _ => None,
    }
}

/// The elements `get_i32_array` gives for a stored value, when it gives them.
pub open spec fn i32_items(v: Option<MetaModel>) -> Option<Seq<MetaItem>> {
    match v {
        Some(MetaModel::Array(MetaKind::I32, xs)) => Some(xs),
        _ => None,
    }
}

/// `r` is what `get_i32_array` reports under `key` for a stored value it gives no elements
/// for.
pub open spec fn i32_array_refusal<T>(v: Option<MetaModel>, key: Seq<char>, r: Result<T>) -> bool {
    match v {
        None => r matches Err(FellmError::MetadataKeyNotFound(k)) && k@ == key,
        Some(m) => mismatch(r, key, "array<i32>"@, m),
    }
}

/// `r` reports that the value under `key` has kind `m` where `expected` was wanted.
pub open spec fn mismatch<T>(r: Result<T>, key: Seq<char>, expected: Seq<char>, m: MetaModel) -> bool {
    r matches Err(FellmError::MetadataTypeMismatch { key: k, expected: x, got: g })
        && k@ == key && x@ == expected && g@ == model_kind_name(m)
}

/// What fetching a string under `key` gives for the stored value `v`.
pub open spec fn spec_string_result(v: Option<MetaModel>, key: Seq<char>, r: Result<&str>) -> bool {
    match v {
        None => r matches Err(FellmError::MetadataKeyNotFound(k)) && k@ == key,
        Some(MetaModel::Item(MetaItem::String(s))) => r matches Ok(x) && x@ == s,
        Some(m) => mismatch(r, key, "string"@, m),
    }
}

fn type_mismatch(key: &str, expected: &'static str, got: &MetaValue) -> (e: FellmError)
    ensures
        e matches FellmError::MetadataTypeMismatch { key: k, expected: x, got: g }
            && k@ == key@ && x@ == expected@ && g@ == model_kind_name(got.model()),
{
    FellmError::MetadataTypeMismatch { key: key.to_owned(), expected, got: got.kind_name() }
}

} // verus!

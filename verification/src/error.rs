//! The error type shared by every part of the library.
use vstd::prelude::*;

use crate::dtype::DType;
use crate::shape::MAX_RANK;
use crate::text::string_push_str;

verus! {

/// The one error type used across the library.
#[allow(inconsistent_fields)]
#[derive(Debug)]
pub enum FellmError {
    /// I/O error reported by the operating system (its message).
    Io(String),
    /// Unknown GGML dtype code.
    UnknownDType(u32),
    /// A dtype was encountered that this build does not implement.
    UnsupportedDType(DType),
    /// Shape mismatch between two tensors.
    ShapeMismatch {
        /// Expected shape.
        expected: Vec<u64>,
        /// Actual shape.
        got: Vec<u64>,
    },
    /// A rank exceeded the maximum rank of a shape.
    RankTooHigh(usize),
    /// The GGUF magic bytes did not match.
    BadGgufMagic(u32),
    /// The GGUF version is not supported.
    UnsupportedGgufVersion(u32),
    /// A named tensor was not found in the model.
    TensorNotFound(String),
    /// A metadata key was not found.
    MetadataKeyNotFound(String),
    /// A metadata value did not have the expected type.
    MetadataTypeMismatch {
        /// The key.
        key: String,
        /// Expected type name.
        expected: &'static str,
        /// Actual type name.
        got: &'static str,
    },
    /// A tokenizer format that is not handled.
    UnsupportedTokenizer(String),
    /// Failed to tokenize / detokenize (also used by the tool-call parser).
    Tokenization(String),
    /// A model architecture that no registered plugin claims.
    UnsupportedArchitecture(String),
    /// The compute graph is invalid.
    InvalidGraph(String),
    /// No kernel is registered for a required operation.
    NoKernel {
        /// The op kind.
        op: String,
        /// Comma-joined dtypes of inputs.
        dtypes: String,
    },
    /// UTF-8 decoding failed while reading a GGUF string.
    InvalidUtf8,
    /// A parse-time invariant was violated.
    Parse(String),
    /// Something failed for a reason not otherwise classified.
    Other(String),
}

/// Alias for `Result<T, FellmError>`.
pub type Result<T> = core::result::Result<T, FellmError>;

impl FellmError {
    /// Construct a generic error with a message.
    pub fn other(msg: &str) -> (e: FellmError)
        ensures
            e matches FellmError::Other(m) && m@ == msg@,
    {
        FellmError::Other(msg.to_owned())
    }

    /// Construct a parse error with a message.
    pub fn parse(msg: &str) -> (e: FellmError)
        ensures
            e matches FellmError::Parse(m) && m@ == msg@,
    {
        FellmError::Parse(msg.to_owned())
    }
}

/// The decimal digit for `d` (0..10).
pub open spec fn decimal_digit(d: nat) -> char {
    ((0x30 + d) as u8) as char
}

/// A number written in decimal, as `{}` writes an integer.
pub open spec fn decimal_text(n: nat) -> Seq<char>
    decreases n,
{
    if n < 10 {
        seq![decimal_digit(n)]
    } else {
        decimal_text(n / 10).push(decimal_digit(n % 10))
    }
}

/// The lower-case hexadecimal digit for `d` (0..16).
pub open spec fn hex_digit(d: nat) -> char {
    if d < 10 {
        ((0x30 + d) as u8) as char
    } else {
        ((0x61 + d - 10) as u8) as char
    }
}

/// A `u32` as eight lower-case hexadecimal digits, most significant first.
pub open spec fn hex8(v: u32) -> Seq<char> {
    let n = v as nat;
    seq![
        hex_digit(n / 0x1000_0000 % 16),
        hex_digit(n / 0x100_0000 % 16),
        hex_digit(n / 0x10_0000 % 16),
        hex_digit(n / 0x1_0000 % 16),
        hex_digit(n / 0x1000 % 16),
        hex_digit(n / 0x100 % 16),
        hex_digit(n / 0x10 % 16),
        hex_digit(n % 16),
    ]
}

/// The numbers written in decimal with `, ` between them.
pub open spec fn numbers_text(s: Seq<u64>) -> Seq<char>
    decreases s.len(),
{
    if s.len() == 0 {
        Seq::empty()
    } else if s.len() == 1 {
        decimal_text(s[0] as nat)
    } else {
        numbers_text(s.drop_last()) + ", "@ + decimal_text(s.last() as nat)
    }
}

/// A list of numbers as `{:?}` writes a `Vec<u64>`: `[1, 2, 3]`.
pub open spec fn list_text(s: Seq<u64>) -> Seq<char> {
    "["@ + numbers_text(s) + "]"@
}

/// `format!("{v}")` of an unsigned integer: its decimal digits.
#[verifier::external_body]
pub(crate) fn decimal_string(v: u64) -> (s: String)
    ensures
        s@ == decimal_text(v as nat),
{
    format!("{v}")
}

/// `format!("{v:#010x}")` of a `u32`: `0x` and eight lower-case hexadecimal digits.
#[verifier::external_body]
fn hex_string(v: u32) -> (s: String)
    ensures
        s@ == "0x"@ + hex8(v),
{
    format!("{v:#010x}")
}

fn push_list(out: &mut String, v: &Vec<u64>)
    ensures
        final(out)@ == old(out)@ + list_text(v@),
{
    let ghost start = out@;
    string_push_str(out, "[");
    let mut i: usize = 0;
    while i < v.len()
        invariant
            i <= v@.len(),
            out@ == start + "["@ + numbers_text(v@.take(i as int)),
        decreases v@.len() - i,
    {
        proof {
            assert(v@.take(i + 1).drop_last() =~= v@.take(i as int));
            assert(v@.take(i + 1).last() == v@[i as int]);
        }
        if i > 0 {
            string_push_str(out, ", ");
        }
        let d = decimal_string(v[i]);
        string_push_str(out, d.as_str());
        proof {
            if i == 0 {
                assert(v@.take(0) =~= Seq::<u64>::empty());
                assert(v@.take(1) =~= seq![v@[0]]);
            }
            assert(out@ =~= start + "["@ + numbers_text(v@.take(i + 1)));
        }
        i = i + 1;
    }
    proof {
        assert(v@.take(v@.len() as int) =~= v@);
    }
    string_push_str(out, "]");
    assert(out@ =~= old(out)@ + list_text(v@));
}

impl FellmError {
    /// The message of the error, as the error type's display text writes it.
    pub open spec fn message_text(&self) -> Seq<char> {
        match self {
            FellmError::Io(m) => "I/O error: "@ + m@,
            FellmError::UnknownDType(c) => "unknown ggml dtype code: "@ + decimal_text(*c as nat),
            FellmError::UnsupportedDType(d) => "unsupported dtype for operation: "@ + d.spec_name(),
            FellmError::ShapeMismatch { expected, got } => "shape mismatch: expected "@ + list_text(expected@)
                + ", got "@ + list_text(got@),
            FellmError::RankTooHigh(r) => "rank "@ + decimal_text(*r as nat) + " exceeds maximum ("@ + decimal_text(
                MAX_RANK as nat,
            ) + ")"@,
            FellmError::BadGgufMagic(m) => "bad GGUF magic: "@ + "0x"@ + hex8(*m),
            FellmError::UnsupportedGgufVersion(v) => "unsupported GGUF version: "@ + decimal_text(*v as nat),
            FellmError::TensorNotFound(n) => "tensor not found: "@ + n@,
            FellmError::MetadataKeyNotFound(k) => "metadata key not found: "@ + k@,
            FellmError::MetadataTypeMismatch { key, expected, got } => "metadata type mismatch for "@ + key@
                + ": expected "@ + expected@ + ", got "@ + got@,
            FellmError::UnsupportedTokenizer(t) => "unsupported tokenizer model: "@ + t@,
            FellmError::Tokenization(m) => "tokenization error: "@ + m@,
            FellmError::UnsupportedArchitecture(a) => "unsupported architecture: "@ + a@,
            FellmError::InvalidGraph(m) => "invalid graph: "@ + m@,
            FellmError::NoKernel { op, dtypes } => "no kernel for op "@ + op@ + " with dtypes "@ + dtypes@,
            FellmError::InvalidUtf8 => "invalid UTF-8 in GGUF string"@,
            FellmError::Parse(m) => "parse error: "@ + m@,
            FellmError::Other(m) => m@,
        }
    }

    /// The message of the error, as text.
    pub fn message(&self) -> (m: String)
        ensures
            m@ == self.message_text(),
    {
        let mut out = String::new();
        match self {
            FellmError::Io(m) => {
                string_push_str(&mut out, "I/O error: ");
                string_push_str(&mut out, m.as_str());
            },
            FellmError::UnknownDType(c) => {
                string_push_str(&mut out, "unknown ggml dtype code: ");
                let d = decimal_string(*c as u64);
                string_push_str(&mut out, d.as_str());
            },
            FellmError::UnsupportedDType(d) => {
                string_push_str(&mut out, "unsupported dtype for operation: ");
                string_push_str(&mut out, d.name());
            },
            FellmError::ShapeMismatch { expected, got } => {
                string_push_str(&mut out, "shape mismatch: expected ");
                push_list(&mut out, expected);
                string_push_str(&mut out, ", got ");
                push_list(&mut out, got);
            },
            FellmError::RankTooHigh(r) => {
                string_push_str(&mut out, "rank ");
                let d = decimal_string(*r as u64);
                string_push_str(&mut out, d.as_str());
                string_push_str(&mut out, " exceeds maximum (");
                let mr = decimal_string(MAX_RANK as u64);
                string_push_str(&mut out, mr.as_str());
                string_push_str(&mut out, ")");
            },
            FellmError::BadGgufMagic(m) => {
                string_push_str(&mut out, "bad GGUF magic: ");
                let h = hex_string(*m);
                string_push_str(&mut out, h.as_str());
            },
            FellmError::UnsupportedGgufVersion(v) => {
                string_push_str(&mut out, "unsupported GGUF version: ");
                let d = decimal_string(*v as u64);
                string_push_str(&mut out, d.as_str());
            },
            FellmError::TensorNotFound(n) => {
                string_push_str(&mut out, "tensor not found: ");
                string_push_str(&mut out, n.as_str());
            },
            FellmError::MetadataKeyNotFound(k) => {
                string_push_str(&mut out, "metadata key not found: ");
                string_push_str(&mut out, k.as_str());
            },
            FellmError::MetadataTypeMismatch { key, expected, got } => {
                string_push_str(&mut out, "metadata type mismatch for ");
                string_push_str(&mut out, key.as_str());
                string_push_str(&mut out, ": expected ");
                string_push_str(&mut out, expected);
                string_push_str(&mut out, ", got ");
                string_push_str(&mut out, got);
            },
            FellmError::UnsupportedTokenizer(t) => {
                string_push_str(&mut out, "unsupported tokenizer model: ");
                string_push_str(&mut out, t.as_str());
            },
            FellmError::Tokenization(m) => {
                string_push_str(&mut out, "tokenization error: ");
                string_push_str(&mut out, m.as_str());
            },
            FellmError::UnsupportedArchitecture(a) => {
                string_push_str(&mut out, "unsupported architecture: ");
                string_push_str(&mut out, a.as_str());
            },
            FellmError::InvalidGraph(m) => {
                string_push_str(&mut out, "invalid graph: ");
                string_push_str(&mut out, m.as_str());
            },
            FellmError::NoKernel { op, dtypes } => {
                string_push_str(&mut out, "no kernel for op ");
                string_push_str(&mut out, op.as_str());
                string_push_str(&mut out, " with dtypes ");
                string_push_str(&mut out, dtypes.as_str());
            },
            FellmError::InvalidUtf8 => {
                string_push_str(&mut out, "invalid UTF-8 in GGUF string");
            },
            FellmError::Parse(m) => {
                string_push_str(&mut out, "parse error: ");
                string_push_str(&mut out, m.as_str());
            },
            FellmError::Other(m) => {
                string_push_str(&mut out, m.as_str());
            },
        }
        assert(out@ =~= self.message_text());
        out
    }
}

} // verus!

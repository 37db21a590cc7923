//! Low-level little-endian byte reader over a borrowed buffer.
use vstd::prelude::*;
use vstd::slice::slice_subrange;
use vstd::string::StringSliceAdditionalSpecFns;
use vstd::utf8::{decode_utf8, valid_utf8};

use crate::error::{FellmError, Result};

verus! {

/// Unsigned value of a byte sequence read in little-endian order.
pub open spec fn le_value(s: Seq<u8>) -> nat
    decreases s.len(),
{
    if s.len() == 0 {
        0
    } else {
        s[0] as nat + 256 * le_value(s.drop_first())
    }
}

/// Two's-complement reinterpretation of an unsigned `bits`-wide value.
pub open spec fn to_signed(v: nat, bits: nat) -> int {
    if v < vstd::arithmetic::power2::pow2((bits - 1) as nat) {
        v as int
    } else {
        v - vstd::arithmetic::power2::pow2(bits)
    }
}

/// The `n` bytes of `data` starting at `pos`, when they are all present.
pub open spec fn bytes_at(data: Seq<u8>, pos: int, n: int) -> Option<Seq<u8>> {
    if 0 <= pos && 0 <= n && pos + n <= data.len() {
        Some(data.subrange(pos, pos + n))
    } else {
        None
    }
}

/// The GGUF string stored at `pos`: a little-endian `u64` byte length, then that many
/// bytes of UTF-8. `Err(true)` marks truncated input, `Err(false)` invalid UTF-8.
pub open spec fn gguf_string_at(data: Seq<u8>, pos: int) -> core::result::Result<(Seq<char>, int), bool> {
    match bytes_at(data, pos, 8) {
        None => Err(true),
        Some(lb) => {
            let len = (le_value(lb) as u64) as usize;
            match bytes_at(data, pos + 8, len as int) {
                None => Err(true),
                Some(b) => if valid_utf8(b) {
                    Ok((decode_utf8(b), pos + 8 + len))
                } else {
                    Err(false)
                },
            }
        },
    }
}

/// Cursor over `&[u8]` for little-endian primitive parsing.
pub struct Reader<'a> {
    data: &'a [u8],
    pos: usize,
}

/// Human-readable message for a read past the end of the buffer.
#[verifier::external_body]
fn eof_message(pos: usize, n: usize, len: usize) -> String {
    format!("unexpected EOF at pos {pos} needing {n} bytes (len {len})")
}

impl<'a> Reader<'a> {
    /// The bytes being read.
    pub closed spec fn data(&self) -> Seq<u8> {
        self.data@
    }

    /// The current cursor position.
    pub closed spec fn cursor(&self) -> nat {
        self.pos as nat
    }

    /// Construct a new reader positioned at offset 0.
    pub fn new(data: &'a [u8]) -> (r: Self)
        ensures
            r.data() == data@,
            r.cursor() == 0,
    {
        Reader { data, pos: 0 }
    }

    /// Current byte offset.
    pub fn pos(&self) -> (p: usize)
        ensures
            p == self.cursor(),
    {
        self.pos
    }

    /// Set the position.
    pub fn set_pos(&mut self, p: usize)
        ensures
            final(self).data() == old(self).data(),
            final(self).cursor() == p,
    {
        self.pos = p;
    }

    /// Remaining bytes.
    pub fn remaining(&self) -> (n: usize)
        requires
            self.cursor() <= self.data().len(),
        ensures
            n == self.data().len() - self.cursor(),
    {
        self.data.len() - self.pos
    }

    /// Take the next `n` bytes and advance past them.
    fn take(&mut self, n: usize) -> (r: Result<&'a [u8]>)
        ensures
            final(self).data() == old(self).data(),
            match bytes_at(old(self).data(), old(self).cursor() as int, n as int) {
                Some(b) => r matches Ok(s) && s@ == b
                    && final(self).cursor() == old(self).cursor() + n,
                None => r matches Err(FellmError::Parse(_)) && final(self).cursor() == old(self).cursor(),
            },
    {
        if self.pos > self.data.len() || n > self.data.len() - self.pos {
            return Err(FellmError::Parse(eof_message(self.pos, n, self.data.len())));
        }
        let s = slice_subrange(self.data, self.pos, self.pos + n);
        self.pos = self.pos + n;
        Ok(s)
    }

    /// Read a u8.
    pub fn u8(&mut self) -> (r: Result<u8>)
        ensures
            final(self).data() == old(self).data(),
            match bytes_at(old(self).data(), old(self).cursor() as int, 1) {
                Some(b) => r == Ok::<u8, FellmError>(le_value(b) as u8)
                    && final(self).cursor() == old(self).cursor() + 1,
                None => r matches Err(FellmError::Parse(_)) && final(self).cursor() == old(self).cursor(),
            },
    {
        let s = self.take(1)?;
        proof {
            reveal_with_fuel(le_value, 2);
        }
        Ok(s[0])
    }

    /// Read an i8 (two's complement).
    pub fn i8(&mut self) -> (r: Result<i8>)
        ensures
            final(self).data() == old(self).data(),
            match bytes_at(old(self).data(), old(self).cursor() as int, 1) {
                Some(b) => r == Ok::<i8, FellmError>(to_signed((le_value(b) as u8) as nat, 8) as i8)
                    && final(self).cursor() == old(self).cursor() + 1,
                None => r matches Err(FellmError::Parse(_)) && final(self).cursor() == old(self).cursor(),
            },
    {
        let v = self.u8()?;
        proof {
            vstd::arithmetic::power2::lemma2_to64();
        }
        if v < 128 {
            Ok(v as i8)
        } else {
            Ok((v as i16 - 256) as i8)
        }
    }

    /// Read a little-endian u16.
    pub fn u16(&mut self) -> (r: Result<u16>)
        ensures
            final(self).data() == old(self).data(),
            match bytes_at(old(self).data(), old(self).cursor() as int, 2) {
                Some(b) => r == Ok::<u16, FellmError>(le_value(b) as u16)
                    && final(self).cursor() == old(self).cursor() + 2,
                None => r matches Err(FellmError::Parse(_)) && final(self).cursor() == old(self).cursor(),
            },
    {
        let s = self.take(2)?;
        proof {
            reveal_with_fuel(le_value, 3);
        }
        Ok(s[0] as u16 + 256 * (s[1] as u16))
    }

    /// Read a little-endian i16 (two's complement).
    pub fn i16(&mut self) -> (r: Result<i16>)
        ensures
            final(self).data() == old(self).data(),
            match bytes_at(old(self).data(), old(self).cursor() as int, 2) {
                Some(b) => r == Ok::<i16, FellmError>(to_signed((le_value(b) as u16) as nat, 16) as i16)
                    && final(self).cursor() == old(self).cursor() + 2,
                None => r matches Err(FellmError::Parse(_)) && final(self).cursor() == old(self).cursor(),
            },
    {
        let v = self.u16()?;
        proof {
            vstd::arithmetic::power2::lemma2_to64();
        }
        if v < 0x8000 {
            Ok(v as i16)
        } else {
            Ok((v as i32 - 0x10000) as i16)
        }
    }

    /// Read a little-endian u32.
    pub fn u32(&mut self) -> (r: Result<u32>)
        ensures
            final(self).data() == old(self).data(),
            match bytes_at(old(self).data(), old(self).cursor() as int, 4) {
                Some(b) => r == Ok::<u32, FellmError>(le_value(b) as u32) && le_value(b) <= u32::MAX
                    && final(self).cursor() == old(self).cursor() + 4,
                None => r matches Err(FellmError::Parse(_)) && final(self).cursor() == old(self).cursor(),
            },
    {
        let s = self.take(4)?;
        proof {
            reveal_with_fuel(le_value, 5);
        }
        Ok(s[0] as u32 + 256 * (s[1] as u32 + 256 * (s[2] as u32 + 256 * (s[3] as u32))))
    }

    /// Read a little-endian i32 (two's complement).
    pub fn i32(&mut self) -> (r: Result<i32>)
        ensures
            final(self).data() == old(self).data(),
            match bytes_at(old(self).data(), old(self).cursor() as int, 4) {
                Some(b) => r == Ok::<i32, FellmError>(to_signed((le_value(b) as u32) as nat, 32) as i32)
                    && final(self).cursor() == old(self).cursor() + 4,
                None => r matches Err(FellmError::Parse(_)) && final(self).cursor() == old(self).cursor(),
            },
    {
        let v = self.u32()?;
        proof {
            vstd::arithmetic::power2::lemma2_to64();
        }
        if v < 0x8000_0000 {
            Ok(v as i32)
        } else {
            Ok((v as i64 - 0x1_0000_0000) as i32)
        }
    }

    /// Read a little-endian u64.
    pub fn u64(&mut self) -> (r: Result<u64>)
        ensures
            final(self).data() == old(self).data(),
            match bytes_at(old(self).data(), old(self).cursor() as int, 8) {
                Some(b) => r == Ok::<u64, FellmError>(le_value(b) as u64) && le_value(b) <= u64::MAX
                    && final(self).cursor() == old(self).cursor() + 8,
                None => r matches Err(FellmError::Parse(_)) && final(self).cursor() == old(self).cursor(),
            },
    {
        let s = self.take(8)?;
        proof {
            reveal_with_fuel(le_value, 9);
        }
        Ok(s[0] as u64 + 256 * (s[1] as u64 + 256 * (s[2] as u64 + 256 * (s[3] as u64 + 256 * (
        s[4] as u64 + 256 * (s[5] as u64 + 256 * (s[6] as u64 + 256 * (s[7] as u64))))))))
    }

    /// Read a little-endian i64 (two's complement).
    pub fn i64(&mut self) -> (r: Result<i64>)
        ensures
            final(self).data() == old(self).data(),
            match bytes_at(old(self).data(), old(self).cursor() as int, 8) {
                Some(b) => r == Ok::<i64, FellmError>(to_signed((le_value(b) as u64) as nat, 64) as i64)
                    && final(self).cursor() == old(self).cursor() + 8,
                None => r matches Err(FellmError::Parse(_)) && final(self).cursor() == old(self).cursor(),
            },
    {
        let v = self.u64()?;
        proof {
            vstd::arithmetic::power2::lemma2_to64();
            vstd::arithmetic::power2::lemma2_to64_rest();
        }
        if v < 0x8000_0000_0000_0000 {
            Ok(v as i64)
        } else {
            let m: u64 = 0xFFFF_FFFF_FFFF_FFFF - v;
            Ok(-(m as i64) - 1)
        }
    }

    /// Read a GGUF string (u64 length + bytes) as an owned UTF-8 `String`.
    pub fn gguf_string(&mut self) -> (r: Result<String>)
        ensures
            final(self).data() == old(self).data(),
            match gguf_string_at(old(self).data(), old(self).cursor() as int) {
                Ok((s, end)) => r matches Ok(v) && v@ == s && final(self).cursor() == end,
                Err(true) => r matches Err(FellmError::Parse(_)),
                Err(false) => r matches Err(FellmError::InvalidUtf8),
            },
    {
        let len = self.u64()? as usize;
        let bytes = self.take(len)?;
        match crate::text::str_from_utf8(bytes) {
            Some(s) => {
                proof {
                    vstd::utf8::decode_utf8_encode_utf8(bytes@);
                    vstd::utf8::encode_utf8_decode_utf8(s@);
                }
                Ok(s.to_owned())
            },
            None => Err(FellmError::InvalidUtf8),
        }
    }

    /// Peek at the next `n` bytes without advancing.
    pub fn peek(&self, n: usize) -> (r: Result<&'a [u8]>)
        ensures
            match bytes_at(self.data(), self.cursor() as int, n as int) {
                Some(b) => r matches Ok(s) && s@ == b,
                None => r matches Err(FellmError::Parse(_)),
            },
    {
        if self.pos > self.data.len() || n > self.data.len() - self.pos {
            return Err(FellmError::parse("peek past EOF"));
        }
        Ok(slice_subrange(self.data, self.pos, self.pos + n))
    }
}

} // verus!

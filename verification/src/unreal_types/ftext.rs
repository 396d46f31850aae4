//! A blob of text: raw bytes that end in a zero byte, with their number put
//! before them.

use vstd::prelude::*;
use vstd::slice::{slice_subrange, slice_to_vec};
use vstd::utf8::{decode_utf8, encode_utf8, valid_utf8};
use crate::error::DecodeError;
use crate::read::{Decoded, Framed, Readable};
use crate::text::string_from_utf8;
use crate::wire::{append, decoded_u32, lemma_u32_roundtrip, read_u32, u32_le_bytes, write_u32};
use crate::write::Writable;

verus! {

/// The largest number of bytes that a blob of text may declare.
pub const MAX_TEXT_BYTES: u32 = 0x7FFF_FFFE;

/// A blob of text. Its view is its bytes, the terminator among them.
#[derive(Debug, PartialEq, Eq, Clone)]
pub struct FText {
    raw: Vec<u8>,
}

impl View for FText {
    type V = Seq<u8>;

    closed spec fn view(&self) -> Seq<u8> {
        self.raw@
    }
}

/// What `raw`, without its last byte, holds as text.
pub open spec fn text_of_blob(raw: Seq<u8>) -> Result<Seq<char>, DecodeError> {
    if raw.len() == 0 {
        Err(DecodeError::InconsistentLength { expected: 1, found: 0 })
    } else if raw.last() != 0 {
        Err(DecodeError::InvalidTermination { unit: raw.last() as u16 })
    } else if !valid_utf8(raw.drop_last()) {
        Err(DecodeError::InvalidEncoding)
    } else {
        Ok(decode_utf8(raw.drop_last()))
    }
}

impl FText {
    /// The blob that holds `value` as UTF-8, with its terminator.
    pub fn from(value: &str) -> (text: FText)
        ensures
            text@ == encode_utf8(value@) + seq![0u8],
    {
        let mut raw = slice_to_vec(value.as_bytes());
        raw.push(0);
        FText { raw }
    }

    /// The blob that holds the bytes `raw`, as they are.
    pub fn from_raw(raw: Vec<u8>) -> (text: FText)
        ensures
            text@ == raw@,
    {
        FText { raw }
    }

    /// The bytes of the blob, the terminator among them.
    pub fn as_bytes(&self) -> (bytes: &[u8])
        ensures
            bytes@ == self@,
    {
        self.raw.as_slice()
    }

    /// The text of the blob. There is none where the blob is empty, does not
    /// end in a zero byte, or holds bytes that are not UTF-8.
    pub fn try_into_string(&self) -> (r: Result<String, DecodeError>)
        ensures
            match r {
                Ok(s) => text_of_blob(self@) == Ok::<Seq<char>, DecodeError>(s@),
                Err(e) => text_of_blob(self@) == Err::<Seq<char>, DecodeError>(e),
            },
    {
        let n = self.raw.len();
        if n == 0 {
            return Err(DecodeError::InconsistentLength { expected: 1, found: 0 });
        }
        let last = self.raw[n - 1];
        if last != 0 {
            return Err(DecodeError::InvalidTermination { unit: last as u16 });
        }
        let start = slice_to_vec(slice_subrange(self.raw.as_slice(), 0, n - 1));
        assert(start@ =~= self@.drop_last());
        match string_from_utf8(start) {
            Some(s) => Ok(s),
            None => Err(DecodeError::InvalidEncoding),
        }
    }
}

impl Writable for FText {
    /// A blob holds its terminator, and its length fits the prefix.
    open spec fn valid(v: Seq<u8>) -> bool {
        1 <= v.len() <= MAX_TEXT_BYTES && v.last() == 0
    }

    open spec fn encoded(v: Seq<u8>) -> Seq<u8> {
        u32_le_bytes(v.len() as u32) + v
    }

    fn is_valid(&self) -> (ok: bool) {
        let n = self.raw.len();
        1 <= n && n <= MAX_TEXT_BYTES as usize && self.raw[n - 1] == 0
    }

    fn write(&self, out: &mut Vec<u8>) {
        write_u32(out, self.raw.len() as u32);
        append(out, self.raw.as_slice());
    }
}

impl Readable for FText {
    open spec fn decoded(bytes: Seq<u8>) -> Decoded<Seq<u8>> {
        match decoded_u32(bytes) {
            Ok((len, _)) => if len > MAX_TEXT_BYTES {
                Err(DecodeError::OversizedField { limit: MAX_TEXT_BYTES, found: len })
            } else if bytes.len() - 4 < len {
                Err(DecodeError::UnexpectedEnd)
            } else if len == 0 {
                Err(DecodeError::InconsistentLength { expected: 1, found: 0 })
            } else if bytes[4 + len - 1] != 0 {
                Err(DecodeError::InvalidTermination { unit: bytes[4 + len - 1] as u16 })
            } else {
                Ok((bytes.subrange(4, 4 + len), 4 + len))
            },
            Err(e) => Err(e),
        }
    }

    fn read(buf: &[u8]) -> (r: Result<(FText, usize), DecodeError>) {
        let (len, _) = read_u32(buf)?;
        if len > MAX_TEXT_BYTES {
            return Err(DecodeError::OversizedField { limit: MAX_TEXT_BYTES, found: len });
        }
        if buf.len() - 4 < len as usize {
            return Err(DecodeError::UnexpectedEnd);
        }
        if len == 0 {
            return Err(DecodeError::InconsistentLength { expected: 1, found: 0 });
        }
        let end: usize = 4 + len as usize;
        let last = buf[end - 1];
        if last != 0 {
            return Err(DecodeError::InvalidTermination { unit: last as u16 });
        }
        let raw = slice_to_vec(slice_subrange(buf, 4, end));
        Ok((FText { raw }, end))
    }

    proof fn lemma_roundtrip(v: Seq<u8>, rest: Seq<u8>) {
        let bytes = Self::encoded(v) + rest;
        lemma_u32_roundtrip(v.len() as u32, v + rest);
        assert(bytes =~= u32_le_bytes(v.len() as u32) + (v + rest));
        assert(bytes.subrange(4, 4 + v.len() as int) =~= v);
        assert(bytes[4 + v.len() - 1] == v.last());
    }
}

impl Framed for FText {
    proof fn lemma_truncated(v: Seq<u8>, k: int) {
        let cut = Self::encoded(v).take(k);
        if k >= 4 {
            let left = v.take(k - 4);
            assert(cut =~= u32_le_bytes(v.len() as u32) + left);
            lemma_u32_roundtrip(v.len() as u32, left);
        }
    }
}

} // verus!

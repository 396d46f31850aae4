//! The two bytes that say how one name of a batch is laid out.

use vstd::prelude::*;
use crate::error::DecodeError;
use crate::read::{Decoded, Framed, Readable};
use crate::write::Writable;

verus! {

/// The width and the length of one name of a batch.
///
/// On the wire the header is a 16-bit word, most significant byte first: its
/// top bit is the width flag, the fifteen bits below it are the length.
#[derive(Debug, PartialEq, Eq, Clone, Copy)]
pub struct SerializedNameHeader {
    /// Whether the name is kept in units of sixteen bits.
    pub is_utf16: bool,
    /// The number of units, terminator included. Use
    /// [`SerializedNameHeader::n_bytes`] for the number of bytes.
    pub len: u16,
}

impl View for SerializedNameHeader {
    type V = SerializedNameHeader;

    open spec fn view(&self) -> SerializedNameHeader {
        *self
    }
}

impl SerializedNameHeader {
    /// The number of bytes that the name takes up, terminator included.
    pub open spec fn spec_n_bytes(self) -> int {
        if self.is_utf16 {
            2 * self.len
        } else {
            self.len as int
        }
    }

    /// The number of bytes that the name takes up, terminator included.
    pub fn n_bytes(&self) -> (n: u32)
        ensures
            n == self.spec_n_bytes(),
    {
        if self.is_utf16 {
            self.len as u32 * 2
        } else {
            self.len as u32
        }
    }
}

/// The header that the two bytes `first` and `second` pack.
pub open spec fn unpacked_header(first: u8, second: u8) -> SerializedNameHeader {
    SerializedNameHeader { is_utf16: first >= 0x80, len: ((first % 0x80) * 0x100 + second) as u16 }
}

impl Writable for SerializedNameHeader {
    /// The length has to fit in fifteen bits.
    open spec fn valid(v: SerializedNameHeader) -> bool {
        v.len < 0x8000
    }

    open spec fn encoded(v: SerializedNameHeader) -> Seq<u8> {
        seq![
            ((if v.is_utf16 {
                0x80int
            } else {
                0int
            }) + v.len / 0x100) as u8,
            (v.len % 0x100) as u8,
        ]
    }

    fn is_valid(&self) -> (ok: bool) {
        self.len < 0x8000
    }

    fn write(&self, out: &mut Vec<u8>) {
        let flag: u8 = if self.is_utf16 {
            0x80
        } else {
            0
        };
        let first: u8 = flag + (self.len / 0x100) as u8;
        let second: u8 = (self.len % 0x100) as u8;
        out.push(first);
        out.push(second);
        assert(out@ =~= old(out)@ + Self::encoded(self@));
    }
}

impl Readable for SerializedNameHeader {
    /// Every pattern of sixteen bits is a header.
    open spec fn decoded(bytes: Seq<u8>) -> Decoded<SerializedNameHeader> {
        if bytes.len() < 2 {
            Err(DecodeError::UnexpectedEnd)
        } else {
            Ok((unpacked_header(bytes[0], bytes[1]), 2))
        }
    }

    fn read(buf: &[u8]) -> (r: Result<(SerializedNameHeader, usize), DecodeError>) {
        if buf.len() < 2 {
            return Err(DecodeError::UnexpectedEnd);
        }
        let first = buf[0];
        let second = buf[1];
        let header = SerializedNameHeader {
            is_utf16: first >= 0x80,
            len: (first % 0x80) as u16 * 0x100 + second as u16,
        };
        Ok((header, 2))
    }

    proof fn lemma_roundtrip(v: SerializedNameHeader, rest: Seq<u8>) {
        let bytes = Self::encoded(v) + rest;
        assert(bytes[0] == Self::encoded(v)[0]);
        assert(bytes[1] == Self::encoded(v)[1]);
    }
}

/// The header that a width and a length of at most fifteen bits pack into
/// comes back from the two bytes.
pub proof fn lemma_header_roundtrip(is_wide: bool, n: u16)
    requires
        n < 0x8000,
    ensures
        SerializedNameHeader::decoded(
            SerializedNameHeader::encoded(SerializedNameHeader { is_utf16: is_wide, len: n }),
        ) == Ok::<(SerializedNameHeader, int), DecodeError>(
            (SerializedNameHeader { is_utf16: is_wide, len: n }, 2),
        ),
{
    let v = SerializedNameHeader { is_utf16: is_wide, len: n };
    SerializedNameHeader::lemma_roundtrip(v, Seq::empty());
    assert(SerializedNameHeader::encoded(v) + Seq::<u8>::empty() =~= SerializedNameHeader::encoded(
        v,
    ));
}

impl Framed for SerializedNameHeader {
    proof fn lemma_truncated(v: SerializedNameHeader, k: int) {
    }
}

} // verus!

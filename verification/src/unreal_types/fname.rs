//! A reference to a name: an index into a table of names that lives outside
//! this codec, and an instance number.

use vstd::prelude::*;
use vstd::slice::slice_subrange;
use crate::error::DecodeError;
use crate::read::{Decoded, Framed, Readable};
use crate::wire::{decoded_u32, lemma_u32_roundtrip, read_u32, u32_le_bytes, write_u32};
use crate::write::Writable;

verus! {

/// A name reference. No string is resolved here: the table that `index`
/// points into belongs to the caller.
#[derive(Debug, PartialEq, Eq, Copy, Clone)]
pub struct FName {
    /// Index into the table of names.
    pub index: u32,
    /// Instance number, stored as one more than the number shown.
    pub number: u32,
}

impl View for FName {
    type V = FName;

    open spec fn view(&self) -> FName {
        *self
    }
}

impl Writable for FName {
    open spec fn valid(v: FName) -> bool {
        true
    }

    open spec fn encoded(v: FName) -> Seq<u8> {
        u32_le_bytes(v.index) + u32_le_bytes(v.number)
    }

    fn is_valid(&self) -> (ok: bool) {
        true
    }

    fn write(&self, out: &mut Vec<u8>) {
        write_u32(out, self.index);
        write_u32(out, self.number);
    }
}

impl Readable for FName {
    open spec fn decoded(bytes: Seq<u8>) -> Decoded<FName> {
        match decoded_u32(bytes) {
            Ok((index, _)) => match decoded_u32(bytes.skip(4)) {
                Ok((number, _)) => Ok((FName { index, number }, 8)),
                Err(e) => Err(e),
            },
            Err(e) => Err(e),
        }
    }

    fn read(buf: &[u8]) -> (r: Result<(FName, usize), DecodeError>) {
        let (index, _) = read_u32(buf)?;
        let (number, _) = read_u32(slice_subrange(buf, 4, buf.len()))?;
        Ok((FName { index, number }, 8))
    }

    proof fn lemma_roundtrip(v: FName, rest: Seq<u8>) {
        let tail = u32_le_bytes(v.number) + rest;
        lemma_u32_roundtrip(v.index, tail);
        lemma_u32_roundtrip(v.number, rest);
        assert(Self::encoded(v) + rest =~= u32_le_bytes(v.index) + tail);
        assert((u32_le_bytes(v.index) + tail).skip(4) =~= tail);
    }
}

impl Framed for FName {
    proof fn lemma_truncated(v: FName, k: int) {
    }
}

} // verus!

//! References to a name that carry no instance number.

use vstd::prelude::*;
use crate::error::DecodeError;
use crate::read::{Decoded, Framed, Readable};
use crate::wire::{decoded_u32, lemma_u32_roundtrip, read_u32, u32_le_bytes, write_u32};
use crate::write::Writable;

verus! {

/// An index into the table of names.
#[derive(Debug, PartialEq, Eq, Copy, Clone)]
pub struct FNameEntryId(pub u32);

/// The index of a name as it is displayed: a name reference without an
/// instance number.
#[derive(Debug, PartialEq, Eq, Copy, Clone)]
pub struct FDisplayNameEntryId(pub FNameEntryId);

impl View for FNameEntryId {
    type V = FNameEntryId;

    open spec fn view(&self) -> FNameEntryId {
        *self
    }
}

impl View for FDisplayNameEntryId {
    type V = FDisplayNameEntryId;

    open spec fn view(&self) -> FDisplayNameEntryId {
        *self
    }
}

impl Writable for FNameEntryId {
    open spec fn valid(v: FNameEntryId) -> bool {
        true
    }

    open spec fn encoded(v: FNameEntryId) -> Seq<u8> {
        u32_le_bytes(v.0)
    }

    fn is_valid(&self) -> (ok: bool) {
        true
    }

    fn write(&self, out: &mut Vec<u8>) {
        write_u32(out, self.0);
    }
}

impl Readable for FNameEntryId {
    open spec fn decoded(bytes: Seq<u8>) -> Decoded<FNameEntryId> {
        match decoded_u32(bytes) {
            Ok((index, used)) => Ok((FNameEntryId(index), used)),
            Err(e) => Err(e),
        }
    }

    fn read(buf: &[u8]) -> (r: Result<(FNameEntryId, usize), DecodeError>) {
        let (index, used) = read_u32(buf)?;
        Ok((FNameEntryId(index), used))
    }

    proof fn lemma_roundtrip(v: FNameEntryId, rest: Seq<u8>) {
        lemma_u32_roundtrip(v.0, rest);
    }
}

impl Writable for FDisplayNameEntryId {
    open spec fn valid(v: FDisplayNameEntryId) -> bool {
        true
    }

    open spec fn encoded(v: FDisplayNameEntryId) -> Seq<u8> {
        FNameEntryId::encoded(v.0)
    }

    fn is_valid(&self) -> (ok: bool) {
        true
    }

    fn write(&self, out: &mut Vec<u8>) {
        self.0.write(out);
    }
}

impl Readable for FDisplayNameEntryId {
    open spec fn decoded(bytes: Seq<u8>) -> Decoded<FDisplayNameEntryId> {
        match FNameEntryId::decoded(bytes) {
            Ok((id, used)) => Ok((FDisplayNameEntryId(id), used)),
            Err(e) => Err(e),
        }
    }

    fn read(buf: &[u8]) -> (r: Result<(FDisplayNameEntryId, usize), DecodeError>) {
        let (id, used) = FNameEntryId::read(buf)?;
        Ok((FDisplayNameEntryId(id), used))
    }

    proof fn lemma_roundtrip(v: FDisplayNameEntryId, rest: Seq<u8>) {
        FNameEntryId::lemma_roundtrip(v.0, rest);
    }
}

impl Framed for FNameEntryId {
    proof fn lemma_truncated(v: FNameEntryId, k: int) {
    }
}

impl Framed for FDisplayNameEntryId {
    proof fn lemma_truncated(v: FDisplayNameEntryId, k: int) {
    }
}

} // verus!

//! A key and the packed reference to its value.

use vstd::prelude::*;
use vstd::slice::slice_subrange;
use crate::error::DecodeError;
use crate::read::{lemma_roundtrip_then, Decoded, Framed, Readable};
use crate::unreal_types::fname::FName;
use crate::unreal_types::fname_entry_id::FDisplayNameEntryId;
use crate::unreal_types::fvalue_id::{FValueId, FValueIdView};
use crate::write::Writable;

verus! {

/// A pair whose key is a full name reference.
#[derive(Debug, PartialEq, Eq, Copy, Clone)]
pub struct FNumberedPair {
    pub key: FName,
    pub value: FValueId,
}

/// What a numbered pair holds.
pub struct FNumberedPairView {
    pub key: FName,
    pub value: FValueIdView,
}

/// A pair whose key carries no instance number.
#[derive(Debug, PartialEq, Eq, Copy, Clone)]
pub struct FNumberlessPair {
    pub key: FDisplayNameEntryId,
    pub value: FValueId,
}

/// What a numberless pair holds.
pub struct FNumberlessPairView {
    pub key: FDisplayNameEntryId,
    pub value: FValueIdView,
}

impl View for FNumberedPair {
    type V = FNumberedPairView;

    open spec fn view(&self) -> FNumberedPairView {
        FNumberedPairView { key: self.key, value: self.value@ }
    }
}

impl View for FNumberlessPair {
    type V = FNumberlessPairView;

    open spec fn view(&self) -> FNumberlessPairView {
        FNumberlessPairView { key: self.key, value: self.value@ }
    }
}

impl Writable for FNumberedPair {
    open spec fn valid(v: FNumberedPairView) -> bool {
        FValueId::valid(v.value)
    }

    open spec fn encoded(v: FNumberedPairView) -> Seq<u8> {
        FName::encoded(v.key) + FValueId::encoded(v.value)
    }

    fn is_valid(&self) -> (ok: bool) {
        self.value.is_valid()
    }

    fn write(&self, out: &mut Vec<u8>) {
        self.key.write(out);
        self.value.write(out);
    }
}

impl Readable for FNumberedPair {
    open spec fn decoded(bytes: Seq<u8>) -> Decoded<FNumberedPairView> {
        match FName::decoded(bytes) {
            Ok((key, n)) => match FValueId::decoded(bytes.skip(n)) {
                Ok((value, m)) => Ok((FNumberedPairView { key, value }, n + m)),
                Err(e) => Err(e),
            },
            Err(e) => Err(e),
        }
    }

    fn read(buf: &[u8]) -> (r: Result<(FNumberedPair, usize), DecodeError>) {
        let (key, n) = FName::read(buf)?;
        let (value, m) = FValueId::read(slice_subrange(buf, n, buf.len()))?;
        Ok((FNumberedPair { key, value }, n + m))
    }

    proof fn lemma_roundtrip(v: FNumberedPairView, rest: Seq<u8>) {
        let tail = FValueId::encoded(v.value) + rest;
        assert(Self::encoded(v) + rest =~= FName::encoded(v.key) + tail);
        lemma_roundtrip_then::<FName>(v.key, tail);
        lemma_roundtrip_then::<FValueId>(v.value, rest);
    }
}

impl Writable for FNumberlessPair {
    open spec fn valid(v: FNumberlessPairView) -> bool {
        FValueId::valid(v.value)
    }

    open spec fn encoded(v: FNumberlessPairView) -> Seq<u8> {
        FDisplayNameEntryId::encoded(v.key) + FValueId::encoded(v.value)
    }

    fn is_valid(&self) -> (ok: bool) {
        self.value.is_valid()
    }

    fn write(&self, out: &mut Vec<u8>) {
        self.key.write(out);
        self.value.write(out);
    }
}

impl Readable for FNumberlessPair {
    open spec fn decoded(bytes: Seq<u8>) -> Decoded<FNumberlessPairView> {
        match FDisplayNameEntryId::decoded(bytes) {
            Ok((key, n)) => match FValueId::decoded(bytes.skip(n)) {
                Ok((value, m)) => Ok((FNumberlessPairView { key, value }, n + m)),
                Err(e) => Err(e),
            },
            Err(e) => Err(e),
        }
    }

    fn read(buf: &[u8]) -> (r: Result<(FNumberlessPair, usize), DecodeError>) {
        let (key, n) = FDisplayNameEntryId::read(buf)?;
        let (value, m) = FValueId::read(slice_subrange(buf, n, buf.len()))?;
        Ok((FNumberlessPair { key, value }, n + m))
    }

    proof fn lemma_roundtrip(v: FNumberlessPairView, rest: Seq<u8>) {
        let tail = FValueId::encoded(v.value) + rest;
        assert(Self::encoded(v) + rest =~= FDisplayNameEntryId::encoded(v.key) + tail);
        lemma_roundtrip_then::<FDisplayNameEntryId>(v.key, tail);
        lemma_roundtrip_then::<FValueId>(v.value, rest);
    }
}

impl Framed for FNumberedPair {
    proof fn lemma_truncated(v: FNumberedPairView, k: int) {
    }
}

impl Framed for FNumberlessPair {
    proof fn lemma_truncated(v: FNumberlessPairView, k: int) {
    }
}

} // verus!

//! The path under which an asset is exported: its class, its object and its
//! package, in that order.

use vstd::prelude::*;
use vstd::slice::slice_subrange;
use crate::error::DecodeError;
use crate::read::{lemma_roundtrip_then, Decoded, Framed, Readable};
use crate::unreal_types::fname::FName;
use crate::unreal_types::fname_entry_id::FDisplayNameEntryId;
use crate::write::Writable;

verus! {

/// An export path of full name references.
#[derive(Debug, PartialEq, Eq, Copy, Clone)]
pub struct FAssetRegistryExportPath {
    pub class: FName,
    pub object: FName,
    pub package: FName,
}

/// An export path whose names carry no instance number.
#[derive(Debug, PartialEq, Eq, Copy, Clone)]
pub struct FNumberlessExportPath {
    pub class: FDisplayNameEntryId,
    pub object: FDisplayNameEntryId,
    pub package: FDisplayNameEntryId,
}

impl View for FAssetRegistryExportPath {
    type V = FAssetRegistryExportPath;

    open spec fn view(&self) -> FAssetRegistryExportPath {
        *self
    }
}

impl View for FNumberlessExportPath {
    type V = FNumberlessExportPath;

    open spec fn view(&self) -> FNumberlessExportPath {
        *self
    }
}

impl Writable for FAssetRegistryExportPath {
    open spec fn valid(v: FAssetRegistryExportPath) -> bool {
        true
    }

    open spec fn encoded(v: FAssetRegistryExportPath) -> Seq<u8> {
        FName::encoded(v.class) + FName::encoded(v.object) + FName::encoded(v.package)
    }

    fn is_valid(&self) -> (ok: bool) {
        true
    }

    fn write(&self, out: &mut Vec<u8>) {
        self.class.write(out);
        self.object.write(out);
        self.package.write(out);
    }
}

impl Readable for FAssetRegistryExportPath {
    open spec fn decoded(bytes: Seq<u8>) -> Decoded<FAssetRegistryExportPath> {
        match FName::decoded(bytes) {
            Ok((class, n1)) => match FName::decoded(bytes.skip(n1)) {
                Ok((object, n2)) => match FName::decoded(bytes.skip(n1 + n2)) {
                    Ok((package, n3)) => Ok(
                        (FAssetRegistryExportPath { class, object, package }, n1 + n2 + n3),
                    ),
                    Err(e) => Err(e),
                },
                Err(e) => Err(e),
            },
            Err(e) => Err(e),
        }
    }

    fn read(buf: &[u8]) -> (r: Result<(FAssetRegistryExportPath, usize), DecodeError>) {
        let (class, n1) = FName::read(buf)?;
        let (object, n2) = FName::read(slice_subrange(buf, n1, buf.len()))?;
        let (package, n3) = FName::read(slice_subrange(buf, n1 + n2, buf.len()))?;
        Ok((FAssetRegistryExportPath { class, object, package }, n1 + n2 + n3))
    }

    proof fn lemma_roundtrip(v: FAssetRegistryExportPath, rest: Seq<u8>) {
        let tail2 = FName::encoded(v.package) + rest;
        let tail1 = FName::encoded(v.object) + tail2;
        let whole = FName::encoded(v.class) + tail1;
        assert(Self::encoded(v) + rest =~= whole);
        lemma_roundtrip_then::<FName>(v.class, tail1);
        lemma_roundtrip_then::<FName>(v.object, tail2);
        lemma_roundtrip_then::<FName>(v.package, rest);
        assert(whole.skip(16) =~= tail2);
    }
}

impl Writable for FNumberlessExportPath {
    open spec fn valid(v: FNumberlessExportPath) -> bool {
        true
    }

    open spec fn encoded(v: FNumberlessExportPath) -> Seq<u8> {
        FDisplayNameEntryId::encoded(v.class) + FDisplayNameEntryId::encoded(v.object)
            + FDisplayNameEntryId::encoded(v.package)
    }

    fn is_valid(&self) -> (ok: bool) {
        true
    }

    fn write(&self, out: &mut Vec<u8>) {
        self.class.write(out);
        self.object.write(out);
        self.package.write(out);
    }
}

impl Readable for FNumberlessExportPath {
    open spec fn decoded(bytes: Seq<u8>) -> Decoded<FNumberlessExportPath> {
        match FDisplayNameEntryId::decoded(bytes) {
            Ok((class, n1)) => match FDisplayNameEntryId::decoded(bytes.skip(n1)) {
                Ok((object, n2)) => match FDisplayNameEntryId::decoded(bytes.skip(n1 + n2)) {
                    Ok((package, n3)) => Ok(
                        (FNumberlessExportPath { class, object, package }, n1 + n2 + n3),
                    ),
                    Err(e) => Err(e),
                },
                Err(e) => Err(e),
            },
            Err(e) => Err(e),
        }
    }

    fn read(buf: &[u8]) -> (r: Result<(FNumberlessExportPath, usize), DecodeError>) {
        let (class, n1) = FDisplayNameEntryId::read(buf)?;
        let (object, n2) = FDisplayNameEntryId::read(slice_subrange(buf, n1, buf.len()))?;
        let (package, n3) = FDisplayNameEntryId::read(slice_subrange(buf, n1 + n2, buf.len()))?;
        Ok((FNumberlessExportPath { class, object, package }, n1 + n2 + n3))
    }

    proof fn lemma_roundtrip(v: FNumberlessExportPath, rest: Seq<u8>) {
        let tail2 = FDisplayNameEntryId::encoded(v.package) + rest;
        let tail1 = FDisplayNameEntryId::encoded(v.object) + tail2;
        let whole = FDisplayNameEntryId::encoded(v.class) + tail1;
        assert(Self::encoded(v) + rest =~= whole);
        lemma_roundtrip_then::<FDisplayNameEntryId>(v.class, tail1);
        lemma_roundtrip_then::<FDisplayNameEntryId>(v.object, tail2);
        lemma_roundtrip_then::<FDisplayNameEntryId>(v.package, rest);
        assert(whole.skip(8) =~= tail2);
    }
}

impl Framed for FAssetRegistryExportPath {
    proof fn lemma_truncated(v: FAssetRegistryExportPath, k: int) {
    }
}

impl Framed for FNumberlessExportPath {
    proof fn lemma_truncated(v: FNumberlessExportPath, k: int) {
    }
}

} // verus!

//! The path of an asset at the top level of a package.

use vstd::prelude::*;
use vstd::slice::slice_subrange;
use crate::error::DecodeError;
use crate::read::{lemma_roundtrip_then, Decoded, Framed, Readable};
use crate::unreal_types::fname::FName;
use crate::write::Writable;

verus! {

/// A package and an asset in it.
#[derive(Debug, PartialEq, Eq, Copy, Clone)]
pub struct FTopLevelAssetPath {
    pub package_name: FName,
    pub asset_name: FName,
}

impl View for FTopLevelAssetPath {
    type V = FTopLevelAssetPath;

    open spec fn view(&self) -> FTopLevelAssetPath {
        *self
    }
}

impl Writable for FTopLevelAssetPath {
    open spec fn valid(v: FTopLevelAssetPath) -> bool {
        true
    }

    open spec fn encoded(v: FTopLevelAssetPath) -> Seq<u8> {
        FName::encoded(v.package_name) + FName::encoded(v.asset_name)
    }

    fn is_valid(&self) -> (ok: bool) {
        true
    }

    fn write(&self, out: &mut Vec<u8>) {
        self.package_name.write(out);
        self.asset_name.write(out);
    }
}

impl Readable for FTopLevelAssetPath {
    open spec fn decoded(bytes: Seq<u8>) -> Decoded<FTopLevelAssetPath> {
        match FName::decoded(bytes) {
            Ok((package_name, n1)) => match FName::decoded(bytes.skip(n1)) {
                Ok((asset_name, n2)) => Ok(
                    (FTopLevelAssetPath { package_name, asset_name }, n1 + n2),
                ),
                Err(e) => Err(e),
            },
            Err(e) => Err(e),
        }
    }

    fn read(buf: &[u8]) -> (r: Result<(FTopLevelAssetPath, usize), DecodeError>) {
        let (package_name, n1) = FName::read(buf)?;
        let (asset_name, n2) = FName::read(slice_subrange(buf, n1, buf.len()))?;
        Ok((FTopLevelAssetPath { package_name, asset_name }, n1 + n2))
    }

    proof fn lemma_roundtrip(v: FTopLevelAssetPath, rest: Seq<u8>) {
        let tail = FName::encoded(v.asset_name) + rest;
        assert(Self::encoded(v) + rest =~= FName::encoded(v.package_name) + tail);
        lemma_roundtrip_then::<FName>(v.package_name, tail);
        lemma_roundtrip_then::<FName>(v.asset_name, rest);
    }
}

impl Framed for FTopLevelAssetPath {
    proof fn lemma_truncated(v: FTopLevelAssetPath, k: int) {
    }
}

} // verus!

//! The export path of an asset whose class is itself a path.

use vstd::prelude::*;
use vstd::slice::slice_subrange;
use crate::error::DecodeError;
use crate::read::{lemma_roundtrip_then, Decoded, Framed, Readable};
use crate::unreal_types::fname::FName;
use crate::unreal_types::ftop_level_asset_path::FTopLevelAssetPath;
use crate::write::Writable;

verus! {

/// The class path, the package and the object of an asset, written in this
/// order.
#[derive(Debug, PartialEq, Eq, Copy, Clone)]
pub struct AssetRegistryExportPath {
    pub class_path: FTopLevelAssetPath,
    pub package: FName,
    pub object: FName,
}

impl View for AssetRegistryExportPath {
    type V = AssetRegistryExportPath;

    open spec fn view(&self) -> AssetRegistryExportPath {
        *self
    }
}

impl Writable for AssetRegistryExportPath {
    open spec fn valid(v: AssetRegistryExportPath) -> bool {
        true
    }

    open spec fn encoded(v: AssetRegistryExportPath) -> Seq<u8> {
        FTopLevelAssetPath::encoded(v.class_path) + FName::encoded(v.package) + FName::encoded(
            v.object,
        )
    }

    fn is_valid(&self) -> (ok: bool) {
        true
    }

    fn write(&self, out: &mut Vec<u8>) {
        self.class_path.write(out);
        self.package.write(out);
        self.object.write(out);
    }
}

impl Readable for AssetRegistryExportPath {
    open spec fn decoded(bytes: Seq<u8>) -> Decoded<AssetRegistryExportPath> {
        match FTopLevelAssetPath::decoded(bytes) {
            Ok((class_path, n1)) => match FName::decoded(bytes.skip(n1)) {
                Ok((package, n2)) => match FName::decoded(bytes.skip(n1 + n2)) {
                    Ok((object, n3)) => Ok(
                        (AssetRegistryExportPath { class_path, package, object }, n1 + n2 + n3),
                    ),
                    Err(e) => Err(e),
                },
                Err(e) => Err(e),
            },
            Err(e) => Err(e),
        }
    }

    fn read(buf: &[u8]) -> (r: Result<(AssetRegistryExportPath, usize), DecodeError>) {
        let (class_path, n1) = FTopLevelAssetPath::read(buf)?;
        let (package, n2) = FName::read(slice_subrange(buf, n1, buf.len()))?;
        let (object, n3) = FName::read(slice_subrange(buf, n1 + n2, buf.len()))?;
        Ok((AssetRegistryExportPath { class_path, package, object }, n1 + n2 + n3))
    }

    proof fn lemma_roundtrip(v: AssetRegistryExportPath, rest: Seq<u8>) {
        let tail2 = FName::encoded(v.object) + rest;
        let tail1 = FName::encoded(v.package) + tail2;
        let whole = FTopLevelAssetPath::encoded(v.class_path) + tail1;
        assert(Self::encoded(v) + rest =~= whole);
        lemma_roundtrip_then::<FTopLevelAssetPath>(v.class_path, tail1);
        lemma_roundtrip_then::<FName>(v.package, tail2);
        lemma_roundtrip_then::<FName>(v.object, rest);
        assert(whole.skip(24) =~= tail2);
    }
}

impl Framed for AssetRegistryExportPath {
    proof fn lemma_truncated(v: AssetRegistryExportPath, k: int) {
    }
}

} // verus!

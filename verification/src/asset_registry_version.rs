//! The versions of the registry's layout.

use vstd::prelude::*;
use crate::error::DecodeError;
use crate::read::{Decoded, Framed, Readable};
use crate::wire::{decoded_u32, lemma_u32_roundtrip, read_u32, u32_le_bytes, write_u32};
use crate::write::Writable;

verus! {

/// A version of the layout. The versions are ordered as they are listed.
#[derive(Debug, PartialEq, Eq, PartialOrd, Ord, Copy, Clone)]
pub enum AssetRegistryVersion {
    /// From before the files carried a version.
    PreVersioning,
    /// The first version of the runtime registry that carries a version.
    HardSoftDependencies,
    /// Added the registry state and piecemeal serialization.
    AddAssetRegistryState,
    /// The layout of asset data changed; older versions cannot be read.
    ChangedAssetData,
    /// Removed the MD5 hash from the package data.
    RemovedMD5Hash,
    /// Added hard and soft manage references.
    AddedHardManage,
    /// Added the MD5 hash of the cooked package to the package data.
    AddedCookedMD5Hash,
    /// Added a dependency property to each dependency.
    AddedDependencyFlags,
    /// The tags moved into the tag value store.
    FixedTags,
}

impl View for AssetRegistryVersion {
    type V = AssetRegistryVersion;

    open spec fn view(&self) -> AssetRegistryVersion {
        *self
    }
}

impl AssetRegistryVersion {
    /// The newest version, which is the one that is written.
    pub const LATEST_VERSION: AssetRegistryVersion = AssetRegistryVersion::FixedTags;

    /// The number that stands for this version.
    pub open spec fn spec_ordinal(self) -> u32 {
        match self {
            AssetRegistryVersion::PreVersioning => 0,
            AssetRegistryVersion::HardSoftDependencies => 1,
            AssetRegistryVersion::AddAssetRegistryState => 2,
            AssetRegistryVersion::ChangedAssetData => 3,
            AssetRegistryVersion::RemovedMD5Hash => 4,
            AssetRegistryVersion::AddedHardManage => 5,
            AssetRegistryVersion::AddedCookedMD5Hash => 6,
            AssetRegistryVersion::AddedDependencyFlags => 7,
            AssetRegistryVersion::FixedTags => 8,
        }
    }

    /// The version that `n` stands for, if it is a known one.
    pub open spec fn spec_from_ordinal(n: u32) -> Option<AssetRegistryVersion> {
        if n == 0 {
            Some(AssetRegistryVersion::PreVersioning)
        } else if n == 1 {
            Some(AssetRegistryVersion::HardSoftDependencies)
        } else if n == 2 {
            Some(AssetRegistryVersion::AddAssetRegistryState)
        } else if n == 3 {
            Some(AssetRegistryVersion::ChangedAssetData)
        } else if n == 4 {
            Some(AssetRegistryVersion::RemovedMD5Hash)
        } else if n == 5 {
            Some(AssetRegistryVersion::AddedHardManage)
        } else if n == 6 {
            Some(AssetRegistryVersion::AddedCookedMD5Hash)
        } else if n == 7 {
            Some(AssetRegistryVersion::AddedDependencyFlags)
        } else if n == 8 {
            Some(AssetRegistryVersion::FixedTags)
        } else {
            None
        }
    }

    /// The number that stands for this version.
    pub fn ordinal(self) -> (n: u32)
        ensures
            n == self.spec_ordinal(),
            Self::spec_from_ordinal(n) == Some(self),
    {
        match self {
            AssetRegistryVersion::PreVersioning => 0,
            AssetRegistryVersion::HardSoftDependencies => 1,
            AssetRegistryVersion::AddAssetRegistryState => 2,
            AssetRegistryVersion::ChangedAssetData => 3,
            AssetRegistryVersion::RemovedMD5Hash => 4,
            AssetRegistryVersion::AddedHardManage => 5,
            AssetRegistryVersion::AddedCookedMD5Hash => 6,
            AssetRegistryVersion::AddedDependencyFlags => 7,
            AssetRegistryVersion::FixedTags => 8,
        }
    }

    /// The version that `n` stands for. A number that stands for no known
    /// version is rejected.
    pub fn from_ordinal(n: u32) -> (r: Result<AssetRegistryVersion, DecodeError>)
        ensures
            match r {
                Ok(version) => Self::spec_from_ordinal(n) == Some(version),
                Err(e) => Self::spec_from_ordinal(n) is None && e == (
                DecodeError::UnsupportedVersion { found: n }),
            },
    {
        if n == 0 {
            Ok(AssetRegistryVersion::PreVersioning)
        } else if n == 1 {
            Ok(AssetRegistryVersion::HardSoftDependencies)
        } else if n == 2 {
            Ok(AssetRegistryVersion::AddAssetRegistryState)
        } else if n == 3 {
            Ok(AssetRegistryVersion::ChangedAssetData)
        } else if n == 4 {
            Ok(AssetRegistryVersion::RemovedMD5Hash)
        } else if n == 5 {
            Ok(AssetRegistryVersion::AddedHardManage)
        } else if n == 6 {
            Ok(AssetRegistryVersion::AddedCookedMD5Hash)
        } else if n == 7 {
            Ok(AssetRegistryVersion::AddedDependencyFlags)
        } else if n == 8 {
            Ok(AssetRegistryVersion::FixedTags)
        } else {
            Err(DecodeError::UnsupportedVersion { found: n })
        }
    }

    /// Whether this version is `other` or a later one: the test by which a
    /// field that `other` introduced is present.
    pub fn at_least(self, other: AssetRegistryVersion) -> (reached: bool)
        ensures
            reached == (self.spec_ordinal() >= other.spec_ordinal()),
    {
        self.ordinal() >= other.ordinal()
    }
}

impl Writable for AssetRegistryVersion {
    open spec fn valid(v: AssetRegistryVersion) -> bool {
        true
    }

    open spec fn encoded(v: AssetRegistryVersion) -> Seq<u8> {
        u32_le_bytes(v.spec_ordinal())
    }

    fn is_valid(&self) -> (ok: bool) {
        true
    }

    fn write(&self, out: &mut Vec<u8>) {
        write_u32(out, self.ordinal());
    }
}

impl Readable for AssetRegistryVersion {
    open spec fn decoded(bytes: Seq<u8>) -> Decoded<AssetRegistryVersion> {
        match decoded_u32(bytes) {
            Ok((n, used)) => match Self::spec_from_ordinal(n) {
                Some(version) => Ok((version, used)),
                None => Err(DecodeError::UnsupportedVersion { found: n }),
            },
            Err(e) => Err(e),
        }
    }

    fn read(buf: &[u8]) -> (r: Result<(AssetRegistryVersion, usize), DecodeError>) {
        let (n, used) = read_u32(buf)?;
        match AssetRegistryVersion::from_ordinal(n) {
            Ok(version) => Ok((version, used)),
            Err(e) => Err(e),
        }
    }

    proof fn lemma_roundtrip(v: AssetRegistryVersion, rest: Seq<u8>) {
        lemma_u32_roundtrip(v.spec_ordinal(), rest);
    }
}

impl Framed for AssetRegistryVersion {
    proof fn lemma_truncated(v: AssetRegistryVersion, k: int) {
    }
}

} // verus!

//! A registry: its header, and its table of names.

use vstd::prelude::*;
use vstd::slice::slice_subrange;
use crate::asset_registry_header::AssetRegistryHeader;
use crate::asset_registry_version::AssetRegistryVersion;
use crate::error::DecodeError;
use crate::names_batch::{NamesBatch, NamesBatchView};
use crate::read::{lemma_cut, lemma_roundtrip_then, Decoded, Framed, Readable};
use crate::write::Writable;

verus! {

/// A registry.
#[derive(Debug, PartialEq, Eq, Clone)]
pub struct AssetRegistry {
    pub names: NamesBatch,
}

/// What a registry holds.
pub struct AssetRegistryView {
    pub names: NamesBatchView,
}

impl View for AssetRegistry {
    type V = AssetRegistryView;

    open spec fn view(&self) -> AssetRegistryView {
        AssetRegistryView { names: self.names@ }
    }
}

/// The header that is written: that of the newest version.
pub open spec fn latest_header() -> AssetRegistryHeader {
    AssetRegistryHeader { version: AssetRegistryVersion::FixedTags }
}

impl Writable for AssetRegistry {
    open spec fn valid(v: AssetRegistryView) -> bool {
        NamesBatch::valid(v.names)
    }

    /// A registry is written in the newest version of the layout.
    open spec fn encoded(v: AssetRegistryView) -> Seq<u8> {
        AssetRegistryHeader::encoded(latest_header()) + NamesBatch::encoded(v.names)
    }

    fn is_valid(&self) -> (ok: bool) {
        self.names.is_valid()
    }

    fn write(&self, out: &mut Vec<u8>) {
        let header = AssetRegistryHeader { version: AssetRegistryVersion::LATEST_VERSION };
        header.write(out);
        self.names.write(out);
    }
}

impl Readable for AssetRegistry {
    /// A registry of any known version is read.
    open spec fn decoded(bytes: Seq<u8>) -> Decoded<AssetRegistryView> {
        match AssetRegistryHeader::decoded(bytes) {
            Ok((_, n1)) => match NamesBatch::decoded(bytes.skip(n1)) {
                Ok((names, n2)) => Ok((AssetRegistryView { names }, n1 + n2)),
                Err(e) => Err(e),
            },
            Err(e) => Err(e),
        }
    }

    fn read(buf: &[u8]) -> (r: Result<(AssetRegistry, usize), DecodeError>) {
        let (_, n1) = AssetRegistryHeader::read(buf)?;
        let (names, n2) = NamesBatch::read(slice_subrange(buf, n1, buf.len()))?;
        Ok((AssetRegistry { names }, n1 + n2))
    }

    proof fn lemma_roundtrip(v: AssetRegistryView, rest: Seq<u8>) {
        let tail = NamesBatch::encoded(v.names) + rest;
        assert(Self::encoded(v) + rest =~= AssetRegistryHeader::encoded(latest_header()) + tail);
        lemma_roundtrip_then::<AssetRegistryHeader>(latest_header(), tail);
        lemma_roundtrip_then::<NamesBatch>(v.names, rest);
    }
}

impl Framed for AssetRegistry {
    proof fn lemma_truncated(v: AssetRegistryView, k: int) {
        let tail = NamesBatch::encoded(v.names);
        lemma_cut::<AssetRegistryHeader>(latest_header(), tail, k);
        if k >= AssetRegistryHeader::encoded(latest_header()).len() {
            NamesBatch::lemma_truncated(
                v.names,
                k - AssetRegistryHeader::encoded(latest_header()).len(),
            );
        }
    }
}

} // verus!

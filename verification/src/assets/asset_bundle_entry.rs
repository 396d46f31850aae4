//! A named bundle of soft object paths.

use vstd::prelude::*;
use vstd::slice::slice_subrange;
use crate::assets::soft_object_path::{FSoftObjectPath, FSoftObjectPathView};
use crate::counted::{
    counted_is_valid,
    counted_valid,
    decoded_counted,
    encoded_counted,
    lemma_counted_roundtrip,
    lemma_counted_truncated,
    read_counted,
    write_counted,
};
use crate::error::DecodeError;
use crate::read::{lemma_concat_3, lemma_cut, lemma_roundtrip_then, Decoded, Framed, Readable};
use crate::unreal_types::fname::FName;
use crate::write::{views, Writable};

verus! {

/// A bundle: its name, and the paths in it with their number before them.
#[derive(Debug, PartialEq, Eq, Clone)]
pub struct FAssetBundleEntry {
    pub bundle_name: FName,
    pub bundles: Vec<FSoftObjectPath>,
}

/// What a bundle holds.
pub struct FAssetBundleEntryView {
    pub bundle_name: FName,
    pub bundles: Seq<FSoftObjectPathView>,
}

impl View for FAssetBundleEntry {
    type V = FAssetBundleEntryView;

    open spec fn view(&self) -> FAssetBundleEntryView {
        FAssetBundleEntryView { bundle_name: self.bundle_name, bundles: views(self.bundles@) }
    }
}

impl Writable for FAssetBundleEntry {
    open spec fn valid(v: FAssetBundleEntryView) -> bool {
        counted_valid::<FSoftObjectPath>(v.bundles)
    }

    open spec fn encoded(v: FAssetBundleEntryView) -> Seq<u8> {
        FName::encoded(v.bundle_name) + encoded_counted::<FSoftObjectPath>(v.bundles)
    }

    fn is_valid(&self) -> (ok: bool) {
        counted_is_valid::<FSoftObjectPath>(self.bundles.as_slice())
    }

    fn write(&self, out: &mut Vec<u8>) {
        self.bundle_name.write(out);
        write_counted::<FSoftObjectPath>(out, self.bundles.as_slice());
    }
}

impl Readable for FAssetBundleEntry {
    open spec fn decoded(bytes: Seq<u8>) -> Decoded<FAssetBundleEntryView> {
        match FName::decoded(bytes) {
            Ok((bundle_name, n1)) => match decoded_counted::<FSoftObjectPath>(bytes.skip(n1)) {
                Ok((bundles, n2)) => Ok((FAssetBundleEntryView { bundle_name, bundles }, n1 + n2)),
                Err(e) => Err(e),
            },
            Err(e) => Err(e),
        }
    }

    fn read(buf: &[u8]) -> (r: Result<(FAssetBundleEntry, usize), DecodeError>) {
        let (bundle_name, n1) = FName::read(buf)?;
        let (bundles, n2) = read_counted::<FSoftObjectPath>(slice_subrange(buf, n1, buf.len()))?;
        Ok((FAssetBundleEntry { bundle_name, bundles }, n1 + n2))
    }

    proof fn lemma_roundtrip(v: FAssetBundleEntryView, rest: Seq<u8>) {
        let tail = encoded_counted::<FSoftObjectPath>(v.bundles) + rest;
        lemma_concat_3(
            FName::encoded(v.bundle_name),
            encoded_counted::<FSoftObjectPath>(v.bundles),
            rest,
        );
        lemma_roundtrip_then::<FName>(v.bundle_name, tail);
        lemma_counted_roundtrip::<FSoftObjectPath>(v.bundles, rest);
    }
}

impl Framed for FAssetBundleEntry {
    proof fn lemma_truncated(v: FAssetBundleEntryView, k: int) {
        let tail = encoded_counted::<FSoftObjectPath>(v.bundles);
        lemma_cut::<FName>(v.bundle_name, tail, k);
        if k >= FName::encoded(v.bundle_name).len() {
            lemma_counted_truncated::<FSoftObjectPath>(
                v.bundles,
                k - FName::encoded(v.bundle_name).len(),
            );
        }
    }
}

} // verus!

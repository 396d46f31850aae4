//! The record of one asset.

use vstd::prelude::*;
use vstd::slice::slice_subrange;
use crate::assets::asset_bundle_entry::{FAssetBundleEntry, FAssetBundleEntryView};
use crate::counted::{
    counted_is_valid,
    counted_valid,
    decoded_counted,
    encoded_counted,
    lemma_counted_roundtrip,
    lemma_counted_truncated,
    read_counted,
    write_counted,
};
use crate::error::DecodeError;
use crate::read::{
    lemma_roundtrip_then,
    lemma_skip_more,
    lemma_skip_prefix,
    Decoded,
    Framed,
    Readable,
};
use crate::unreal_types::fname::FName;
use crate::wire::{decoded_u64, lemma_u64_roundtrip, read_u64, u64_le_bytes, write_u64};
use crate::write::{views, Writable};

verus! {

/// An asset: five names, a reference to its tags, and its bundles with
/// their number before them.
#[derive(Debug, PartialEq, Eq, Clone)]
pub struct AssetData {
    pub object_path: FName,
    pub package_path: FName,
    pub asset_class: FName,
    pub package_name: FName,
    pub asset_name: FName,
    /// The reference to the map of tags, passed through as it is.
    pub tags: u64,
    pub bundles: Vec<FAssetBundleEntry>,
}

/// What the record of an asset holds.
pub struct AssetDataView {
    pub object_path: FName,
    pub package_path: FName,
    pub asset_class: FName,
    pub package_name: FName,
    pub asset_name: FName,
    pub tags: u64,
    pub bundles: Seq<FAssetBundleEntryView>,
}

impl View for AssetData {
    type V = AssetDataView;

    open spec fn view(&self) -> AssetDataView {
        AssetDataView {
            object_path: self.object_path,
            package_path: self.package_path,
            asset_class: self.asset_class,
            package_name: self.package_name,
            asset_name: self.asset_name,
            tags: self.tags,
            bundles: views(self.bundles@),
        }
    }
}

/// The five names of an asset, in their order on the wire.
pub open spec fn encoded_names_of(v: AssetDataView) -> Seq<u8> {
    FName::encoded(v.object_path) + FName::encoded(v.package_path) + FName::encoded(v.asset_class)
        + FName::encoded(v.package_name) + FName::encoded(v.asset_name)
}

/// What the front of `bytes` stands for as five names.
pub open spec fn decoded_five_names(bytes: Seq<u8>) -> Decoded<(FName, FName, FName, FName, FName)> {
    match FName::decoded(bytes) {
        Ok((a, _)) => match FName::decoded(bytes.skip(8)) {
            Ok((b, _)) => match FName::decoded(bytes.skip(16)) {
                Ok((c, _)) => match FName::decoded(bytes.skip(24)) {
                    Ok((d, _)) => match FName::decoded(bytes.skip(32)) {
                        Ok((e, _)) => Ok(((a, b, c, d, e), 40)),
                        Err(e) => Err(e),
                    },
                    Err(e) => Err(e),
                },
                Err(e) => Err(e),
            },
            Err(e) => Err(e),
        },
        Err(e) => Err(e),
    }
}

/// Five names come back from their bytes.
pub proof fn lemma_five_names_roundtrip(v: AssetDataView, rest: Seq<u8>)
    ensures
        encoded_names_of(v).len() == 40,
        decoded_five_names(encoded_names_of(v) + rest) == Ok::<
            ((FName, FName, FName, FName, FName), int),
            DecodeError,
        >(((v.object_path, v.package_path, v.asset_class, v.package_name, v.asset_name), 40)),
{
    let e1 = FName::encoded(v.object_path);
    let e2 = FName::encoded(v.package_path);
    let e3 = FName::encoded(v.asset_class);
    let e4 = FName::encoded(v.package_name);
    let e5 = FName::encoded(v.asset_name);
    let t5 = e5 + rest;
    let t4 = e4 + t5;
    let t3 = e3 + t4;
    let t2 = e2 + t3;
    let whole = e1 + t2;
    crate::read::lemma_concat_6(e1, e2, e3, e4, e5, rest);
    lemma_roundtrip_then::<FName>(v.object_path, t2);
    lemma_roundtrip_then::<FName>(v.package_path, t3);
    lemma_roundtrip_then::<FName>(v.asset_class, t4);
    lemma_roundtrip_then::<FName>(v.package_name, t5);
    lemma_roundtrip_then::<FName>(v.asset_name, rest);
    assert(whole.skip(16) == t3) by {
        lemma_skip_more(whole, 8, 8);
    }
    assert(whole.skip(24) == t4) by {
        lemma_skip_more(whole, 16, 8);
    }
    assert(whole.skip(32) == t5) by {
        lemma_skip_more(whole, 24, 8);
    }
}

impl Writable for AssetData {
    open spec fn valid(v: AssetDataView) -> bool {
        counted_valid::<FAssetBundleEntry>(v.bundles)
    }

    open spec fn encoded(v: AssetDataView) -> Seq<u8> {
        encoded_names_of(v) + u64_le_bytes(v.tags) + encoded_counted::<FAssetBundleEntry>(
            v.bundles,
        )
    }

    fn is_valid(&self) -> (ok: bool) {
        counted_is_valid::<FAssetBundleEntry>(self.bundles.as_slice())
    }

    fn write(&self, out: &mut Vec<u8>) {
        self.object_path.write(out);
        self.package_path.write(out);
        self.asset_class.write(out);
        self.package_name.write(out);
        self.asset_name.write(out);
        write_u64(out, self.tags);
        write_counted::<FAssetBundleEntry>(out, self.bundles.as_slice());
    }
}

impl Readable for AssetData {
    open spec fn decoded(bytes: Seq<u8>) -> Decoded<AssetDataView> {
        match decoded_five_names(bytes) {
            Ok((names, _)) => match decoded_u64(bytes.skip(40)) {
                Ok((tags, _)) => match decoded_counted::<FAssetBundleEntry>(bytes.skip(48)) {
                    Ok((bundles, used)) => Ok(
                        (
                            AssetDataView {
                                object_path: names.0,
                                package_path: names.1,
                                asset_class: names.2,
                                package_name: names.3,
                                asset_name: names.4,
                                tags,
                                bundles,
                            },
                            48 + used,
                        ),
                    ),
                    Err(e) => Err(e),
                },
                Err(e) => Err(e),
            },
            Err(e) => Err(e),
        }
    }

    fn read(buf: &[u8]) -> (r: Result<(AssetData, usize), DecodeError>) {
        let (object_path, _) = FName::read(buf)?;
        let (package_path, _) = FName::read(slice_subrange(buf, 8, buf.len()))?;
        let (asset_class, _) = FName::read(slice_subrange(buf, 16, buf.len()))?;
        let (package_name, _) = FName::read(slice_subrange(buf, 24, buf.len()))?;
        let (asset_name, _) = FName::read(slice_subrange(buf, 32, buf.len()))?;
        let (tags, _) = read_u64(slice_subrange(buf, 40, buf.len()))?;
        let (bundles, used) = read_counted::<FAssetBundleEntry>(
            slice_subrange(buf, 48, buf.len()),
        )?;
        Ok(
            (
                AssetData {
                    object_path,
                    package_path,
                    asset_class,
                    package_name,
                    asset_name,
                    tags,
                    bundles,
                },
                48 + used,
            ),
        )
    }

    proof fn lemma_roundtrip(v: AssetDataView, rest: Seq<u8>) {
        let e1 = encoded_names_of(v);
        let e2 = u64_le_bytes(v.tags);
        let e3 = encoded_counted::<FAssetBundleEntry>(v.bundles);
        let t3 = e3 + rest;
        let t2 = e2 + t3;
        let whole = e1 + t2;
        assert(Self::encoded(v) + rest == whole) by {
            crate::read::lemma_concat_3(e1 + e2, e3, rest);
            crate::read::lemma_concat_3(e1, e2, t3);
        }
        lemma_five_names_roundtrip(v, t2);
        lemma_u64_roundtrip(v.tags, t3);
        lemma_counted_roundtrip::<FAssetBundleEntry>(v.bundles, rest);
        assert(whole.skip(40) == t2) by {
            lemma_skip_prefix(e1, t2);
        }
        assert(whole.skip(48) == t3) by {
            lemma_skip_prefix(e2, t3);
            lemma_skip_more(whole, 40, 8);
        }
    }
}

impl Framed for AssetData {
    proof fn lemma_truncated(v: AssetDataView, k: int) {
        let e1 = encoded_names_of(v);
        let e2 = u64_le_bytes(v.tags);
        let e3 = encoded_counted::<FAssetBundleEntry>(v.bundles);
        let whole = e1 + (e2 + e3);
        let cut = whole.take(k);
        crate::read::lemma_concat_3(e1, e2, e3);
        lemma_five_names_roundtrip(v, Seq::empty());
        if k >= 48 {
            assert(cut.skip(48) =~= e3.take(k - 48));
            lemma_counted_truncated::<FAssetBundleEntry>(v.bundles, k - 48);
        }
    }
}

} // verus!

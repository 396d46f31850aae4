//! The records of all assets.

use vstd::prelude::*;
use crate::assets::asset_data::{AssetData, AssetDataView};
use crate::counted::{
    counted_is_valid,
    counted_valid,
    decoded_counted,
    encoded_counted,
    lemma_counted_roundtrip,
    lemma_counted_truncated,
    read_counted,
    write_counted,
};
use crate::error::DecodeError;
use crate::read::{Decoded, Framed, Readable};
use crate::write::{views, Writable};

verus! {

/// The assets, with their number before them.
#[derive(Debug, PartialEq, Eq, Clone)]
pub struct AssetDataCollection {
    pub assets: Vec<AssetData>,
}

/// What a collection of assets holds.
pub struct AssetDataCollectionView {
    pub assets: Seq<AssetDataView>,
}

impl View for AssetDataCollection {
    type V = AssetDataCollectionView;

    open spec fn view(&self) -> AssetDataCollectionView {
        AssetDataCollectionView { assets: views(self.assets@) }
    }
}

impl Writable for AssetDataCollection {
    open spec fn valid(v: AssetDataCollectionView) -> bool {
        counted_valid::<AssetData>(v.assets)
    }

    open spec fn encoded(v: AssetDataCollectionView) -> Seq<u8> {
        encoded_counted::<AssetData>(v.assets)
    }

    fn is_valid(&self) -> (ok: bool) {
        counted_is_valid::<AssetData>(self.assets.as_slice())
    }

    fn write(&self, out: &mut Vec<u8>) {
        write_counted::<AssetData>(out, self.assets.as_slice());
    }
}

impl Readable for AssetDataCollection {
    open spec fn decoded(bytes: Seq<u8>) -> Decoded<AssetDataCollectionView> {
        match decoded_counted::<AssetData>(bytes) {
            Ok((assets, used)) => Ok((AssetDataCollectionView { assets }, used)),
            Err(e) => Err(e),
        }
    }

    fn read(buf: &[u8]) -> (r: Result<(AssetDataCollection, usize), DecodeError>) {
        let (assets, used) = read_counted::<AssetData>(buf)?;
        Ok((AssetDataCollection { assets }, used))
    }

    proof fn lemma_roundtrip(v: AssetDataCollectionView, rest: Seq<u8>) {
        lemma_counted_roundtrip::<AssetData>(v.assets, rest);
    }
}

impl Framed for AssetDataCollection {
    proof fn lemma_truncated(v: AssetDataCollectionView, k: int) {
        lemma_counted_truncated::<AssetData>(v.assets, k);
    }
}

} // verus!

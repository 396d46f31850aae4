//! The records of the assets themselves: fixed shapes over the leaf records.

pub mod asset_bundle_entry;
pub mod asset_data;
pub mod asset_data_collection;
pub mod soft_object_path;

pub use asset_bundle_entry::{FAssetBundleEntry, FAssetBundleEntryView};
pub use asset_data::{AssetData, AssetDataView};
pub use asset_data_collection::{AssetDataCollection, AssetDataCollectionView};
pub use soft_object_path::{FSoftObjectPath, FSoftObjectPathView};

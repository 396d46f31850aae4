//! The engine's leaf records.

pub mod fasset_registry_export_path;
pub mod fname;
pub mod fname_entry_id;
pub mod fnumbered_pair;
pub mod fstring;
pub mod ftext;
pub mod ftop_level_asset_path;
pub mod fvalue_id;
pub mod unreal_bool;

pub use fasset_registry_export_path::{FAssetRegistryExportPath, FNumberlessExportPath};
pub use fname::FName;
pub use fname_entry_id::{FDisplayNameEntryId, FNameEntryId};
pub use fnumbered_pair::{FNumberedPair, FNumberedPairView, FNumberlessPair, FNumberlessPairView};
pub use fstring::{FString, FStringView};
pub use ftext::FText;
pub use ftop_level_asset_path::FTopLevelAssetPath;
pub use fvalue_id::{FValueId, FValueIdView, ValueType};
pub use unreal_bool::UnrealBool;

use asset_registry_codec::asset_registry::AssetRegistry;
use asset_registry_codec::asset_registry_header::AssetRegistryHeader;
use asset_registry_codec::asset_registry_version::AssetRegistryVersion;
use asset_registry_codec::assets::{AssetData, AssetDataCollection, FAssetBundleEntry, FSoftObjectPath};
use asset_registry_codec::error::DecodeError;
use asset_registry_codec::names_batch::NamesBatch;
use asset_registry_codec::read::Readable;
use asset_registry_codec::serialized_name_header::SerializedNameHeader;
use asset_registry_codec::store_data::StoreData;
use asset_registry_codec::unreal_types::{
    FAssetRegistryExportPath, FDisplayNameEntryId, FName, FNameEntryId, FNumberedPair,
    FNumberlessExportPath, FNumberlessPair, FString, FText, FValueId,
};
use asset_registry_codec::write::Writable;

/// Encodes `value`, decodes the bytes and hands back what came out.
fn through<T: Readable>(value: &T) -> T {
    assert!(value.is_valid());
    let mut buf = vec![];
    value.write(&mut buf);
    let (read, used) = T::read(&buf).unwrap();
    assert_eq!(used, buf.len());
    read
}

#[test]
fn asset_registry_test_roundtrip() {
    let names = NamesBatch {
        hash_version: 0,
        hashes: vec![0xDEAD_BEEF],
        headers: vec![SerializedNameHeader { is_utf16: false, len: 2 }],
        strings: vec!["a".to_string()],
    };
    let asset_registry = through(&AssetRegistry { names: names.clone() });
    assert_eq!(asset_registry.names, names);
}

#[test]
fn asset_registry_header_test_roundtrip() {
    let header = through(&AssetRegistryHeader { version: AssetRegistryVersion::LATEST_VERSION });
    assert_eq!(header.version, AssetRegistryVersion::LATEST_VERSION);
}

#[test]
fn asset_registry_version_test_roundtrip() {
    let mut buf = vec![];
    AssetRegistryVersion::LATEST_VERSION.write(&mut buf);
    assert_eq!(buf.len(), 4);
    let (version, _) = AssetRegistryVersion::read(&buf).unwrap();
    assert_eq!(version, AssetRegistryVersion::LATEST_VERSION);
}

#[test]
fn asset_bundle_entry_test_roundtrip() {
    let entry = FAssetBundleEntry {
        bundle_name: FName { index: 123, number: 456 },
        bundles: vec![FSoftObjectPath {
            asset_path_name: FName { index: 789, number: 120 },
            sub_path_string: FString::from("KEKW"),
        }],
    };
    let read_entry = through(&entry);
    assert_eq!(read_entry, entry);
}

fn sample_asset() -> AssetData {
    AssetData {
        object_path: FName { index: 123, number: 456 },
        package_path: FName { index: 836, number: 136 },
        asset_class: FName { index: 58120912, number: 12873 },
        package_name: FName { index: 4723, number: 1 },
        asset_name: FName { index: 2, number: 3 },
        tags: 0xDEAD_BEEF,
        bundles: vec![FAssetBundleEntry {
            bundle_name: FName { index: 621, number: 921 },
            bundles: vec![FSoftObjectPath {
                asset_path_name: FName { index: 183, number: 1749 },
                sub_path_string: FString::from("forklift"),
            }],
        }],
    }
}

#[test]
fn asset_data_test_roundtrip() {
    let data = sample_asset();
    let read_data = through(&data);
    assert_eq!(read_data, data);
}

#[test]
fn asset_data_collection_test_roundtrip() {
    let data = AssetDataCollection { assets: vec![sample_asset()] };
    let read_data = through(&data);
    assert_eq!(read_data, data);
}

#[test]
fn soft_object_path_test_roundtrip() {
    let path = FSoftObjectPath {
        asset_path_name: FName { index: 123, number: 456 },
        sub_path_string: FString::from("catJAM"),
    };
    let read_path = through(&path);
    assert_eq!(read_path, path);
}

#[test]
fn names_batch_test_roundtrip() {
    let hash_version = 0xDEAD_BEEFu64;
    let hashes = vec![0xBAAAAAADu64, 0xDEADC0DE];
    let headers = vec![
        SerializedNameHeader { is_utf16: false, len: 3 },
        SerializedNameHeader { is_utf16: false, len: 2 },
    ];
    let strings = vec!["12".to_string(), "3".to_string()];

    let names_batch = through(&NamesBatch {
        hash_version: hash_version.clone(),
        hashes: hashes.clone(),
        headers: headers.clone(),
        strings: strings.clone(),
    });

    assert_eq!(names_batch.hash_version, hash_version);
    assert_eq!(names_batch.hashes, hashes);
    assert_eq!(names_batch.headers, headers);
    assert_eq!(names_batch.strings, strings);
}

#[test]
fn serialized_name_header_test_roundtrip() {
    let len = 0x1234u16;
    let is_utf16 = true;

    let mut buf = vec![];
    let written = SerializedNameHeader { len, is_utf16 };
    assert!(written.is_valid());
    written.write(&mut buf);
    assert_eq!(buf.len(), 2);

    let (header, _) = SerializedNameHeader::read(&buf).unwrap();
    assert_eq!(header.len, len);
    assert_eq!(header.is_utf16, is_utf16);
}

/// The reference to `name` that carries no instance number.
fn numberless(name: FName) -> FDisplayNameEntryId {
    FDisplayNameEntryId(FNameEntryId(name.index))
}

#[test]
fn store_data_test_roundtrip() {
    // The three low bits of 3492 hold 4, which names no kind of value; 3490
    // is the same index with the kind of a name.
    assert_eq!(FValueId::try_from_u32(3492), Err(DecodeError::UnknownTag { found: 4 }));
    let store = StoreData {
        text_data: vec![FText::from("OwO")],
        numberless_names: vec![FName { index: 0, number: 567 }],
        names: vec![FName { index: 134, number: 536 }, FName { index: 621, number: 999 }],
        numberless_export_paths: vec![FNumberlessExportPath {
            class: numberless(FName { index: 123, number: 456 }),
            object: numberless(FName { index: 789, number: 101 }),
            package: numberless(FName { index: 194, number: 249 }),
        }],
        export_paths: vec![],
        ansi_strings: vec!["hewwo world".to_string(), "a".to_string()],
        wide_strings: vec![],
        numberless_pairs: vec![FNumberlessPair {
            key: numberless(FName { index: 192, number: 795 }),
            value: FValueId::try_from_u32(3490).unwrap(),
        }],
        pairs: vec![],
    };
    let read_store = through(&store);
    assert_eq!(read_store, store);
}

#[test]
fn fasset_registry_export_path_test_roundtrip() {
    let path = FAssetRegistryExportPath {
        class: FName { index: 123, number: 456 },
        object: FName { index: 583, number: 194 },
        package: FName { index: 789, number: 1012 },
    };
    let read_path = through(&path);
    assert_eq!(read_path, path);
}

#[test]
fn fname_test_roundtrip() {
    let name = FName { index: 123, number: 456 };
    let read_name = through(&name);
    assert_eq!(read_name, name);
}

#[test]
fn fnumbered_pair_test_roundtrip() {
    // The three low bits of 789 hold 5, which names no kind of value; 786 is
    // the same index with the kind of a name.
    assert_eq!(FValueId::try_from_u32(789), Err(DecodeError::UnknownTag { found: 5 }));
    let pair = FNumberedPair {
        key: FName { index: 123, number: 456 },
        value: FValueId::try_from_u32(786).unwrap(),
    };
    let read_pair = through(&pair);
    assert_eq!(read_pair, pair);
}

#[test]
fn test_roundtrip_ansi() {
    let f = FString::from("OwO");
    let read_f = through(&f);
    assert_eq!(f, read_f);
}

#[test]
fn test_roundtrip_unicode() {
    let f = FString::from("\u{f0}\u{178}\u{2122}\u{2021}");
    let read_f = through(&f);
    assert_eq!(f, read_f);
}

#[test]
fn ftext_test_roundtrip() {
    let f = FText::from(&"Hello World!".to_string());
    let read_f = through(&f);
    assert_eq!(f, read_f);
}

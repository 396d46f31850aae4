use asset_registry_codec::asset_registry::AssetRegistry;
use asset_registry_codec::asset_registry_export_path::AssetRegistryExportPath;
use asset_registry_codec::asset_registry_header::{
    AssetRegistryHeader, ASSET_REGISTRY_VERSION_GUID, GUID_A, GUID_B, GUID_C, GUID_D,
};
use asset_registry_codec::asset_registry_version::AssetRegistryVersion;
use asset_registry_codec::counted::{read_counted, write_counted};
use asset_registry_codec::error::DecodeError;
use asset_registry_codec::names_batch::NamesBatch;
use asset_registry_codec::read::{read_array, Readable};
use asset_registry_codec::serialized_name_header::SerializedNameHeader;
use asset_registry_codec::store_data::{StoreCounts, StoreData, END_MAGIC, START_MAGIC};
use asset_registry_codec::string_pool::{
    pool_is_valid, pool_total, read_blob, write_pool_blob, write_pool_offsets,
    MAX_POOLED_STRING_BYTES,
};
use asset_registry_codec::text::{is_pure_ansi, read_text, text_units, write_text};
use asset_registry_codec::unreal_types::fstring::MAX_STRING_SERIALIZATION_SIZE;
use asset_registry_codec::unreal_types::ftext::MAX_TEXT_BYTES;
use asset_registry_codec::unreal_types::{
    FAssetRegistryExportPath, FDisplayNameEntryId, FName, FNameEntryId, FNumberedPair,
    FNumberlessExportPath, FNumberlessPair, FString, FText, FTopLevelAssetPath, FValueId,
    UnrealBool, ValueType,
};
use asset_registry_codec::wire::{
    append, read_i32, read_u16, read_u32, read_u64, write_i32, write_u16, write_u32, write_u64,
};
use asset_registry_codec::write::{array_is_valid, write_array, Writable};

fn encode<T: Writable>(value: &T) -> Vec<u8> {
    assert!(value.is_valid());
    let mut buf = vec![];
    value.write(&mut buf);
    buf
}

fn one_name() -> NamesBatch {
    NamesBatch {
        hash_version: 0,
        hashes: vec![0xDEAD_BEEF],
        headers: vec![SerializedNameHeader { is_utf16: false, len: 2 }],
        strings: vec!["a".to_string()],
    }
}

fn small_store() -> StoreData {
    StoreData {
        text_data: vec![FText::from("t")],
        numberless_names: vec![FName { index: 1, number: 2 }],
        names: vec![FName { index: 3, number: 4 }],
        numberless_export_paths: vec![FNumberlessExportPath {
            class: FDisplayNameEntryId(FNameEntryId(5)),
            object: FDisplayNameEntryId(FNameEntryId(6)),
            package: FDisplayNameEntryId(FNameEntryId(7)),
        }],
        export_paths: vec![],
        ansi_strings: vec!["ab".to_string(), "c".to_string()],
        wide_strings: vec!["\u{e9}".to_string()],
        numberless_pairs: vec![FNumberlessPair {
            key: FDisplayNameEntryId(FNameEntryId(8)),
            value: FValueId::try_from_u32(0x11).unwrap(),
        }],
        pairs: vec![FNumberedPair {
            key: FName { index: 9, number: 10 },
            value: FValueId::try_from_u32(0x1A).unwrap(),
        }],
    }
}

// Integers on the wire.

#[test]
fn integers_are_written_least_significant_byte_first() {
    let mut out = vec![0xAA];
    write_u16(&mut out, 0x1234);
    write_u32(&mut out, 0x1234_5678);
    write_u64(&mut out, 0x0102_0304_0506_0708);
    write_i32(&mut out, -2);
    assert_eq!(
        out,
        vec![
            0xAA, 0x34, 0x12, 0x78, 0x56, 0x34, 0x12, 0x08, 0x07, 0x06, 0x05, 0x04, 0x03, 0x02,
            0x01, 0xFE, 0xFF, 0xFF, 0xFF
        ]
    );
}

#[test]
fn integers_are_read_least_significant_byte_first() {
    assert_eq!(read_u16(&[0x34, 0x12, 0xFF]), Ok((0x1234, 2)));
    assert_eq!(read_u32(&[0x78, 0x56, 0x34, 0x12, 0xFF]), Ok((0x1234_5678, 4)));
    assert_eq!(
        read_u64(&[0x08, 0x07, 0x06, 0x05, 0x04, 0x03, 0x02, 0x01, 0xFF]),
        Ok((0x0102_0304_0506_0708, 8))
    );
    assert_eq!(read_i32(&[0xFE, 0xFF, 0xFF, 0xFF]), Ok((-2, 4)));
    assert_eq!(read_i32(&[0x00, 0x00, 0x00, 0x80]), Ok((i32::MIN, 4)));
    assert_eq!(read_i32(&[0xFF, 0xFF, 0xFF, 0x7F]), Ok((i32::MAX, 4)));
}

#[test]
fn truncated_integers_are_rejected() {
    assert_eq!(read_u16(&[1]), Err(DecodeError::UnexpectedEnd));
    assert_eq!(read_u32(&[1, 2, 3]), Err(DecodeError::UnexpectedEnd));
    assert_eq!(read_u64(&[1, 2, 3, 4, 5, 6, 7]), Err(DecodeError::UnexpectedEnd));
    assert_eq!(read_i32(&[]), Err(DecodeError::UnexpectedEnd));
}

#[test]
fn append_keeps_what_was_there() {
    let mut out = vec![1, 2];
    append(&mut out, &[3, 4, 5]);
    assert_eq!(out, vec![1, 2, 3, 4, 5]);
}

// Arrays.

#[test]
fn arrays_are_read_item_by_item() {
    let bytes = [1, 0, 0, 0, 2, 0, 0, 0, 3, 0, 0, 0, 9];
    assert_eq!(read_array::<u32>(3, &bytes), Ok((vec![1, 2, 3], 12)));
    assert_eq!(read_array::<u32>(0, &bytes), Ok((vec![], 0)));
    assert_eq!(read_array::<u32>(4, &bytes), Err(DecodeError::UnexpectedEnd));
    assert_eq!(read_array::<u32>(u32::MAX, &bytes), Err(DecodeError::UnexpectedEnd));
}

#[test]
fn arrays_are_written_item_by_item() {
    let mut out = vec![];
    assert!(array_is_valid::<u16>(&[1, 0x0203]));
    write_array::<u16>(&mut out, &[1, 0x0203]);
    assert_eq!(out, vec![1, 0, 3, 2]);
}

#[test]
fn counted_arrays_carry_their_number() {
    let mut out = vec![];
    write_counted::<u16>(&mut out, &[7, 8]);
    assert_eq!(out, vec![2, 0, 0, 0, 7, 0, 8, 0]);
    assert_eq!(read_counted::<u16>(&out), Ok((vec![7, 8], 8)));
    assert_eq!(read_counted::<u16>(&out[..7]), Err(DecodeError::UnexpectedEnd));
}

// The packed header of a name.

#[test]
fn every_header_of_fifteen_bits_comes_back() {
    for is_utf16 in [false, true] {
        for len in 0..0x8000u16 {
            let header = SerializedNameHeader { is_utf16, len };
            let bytes = encode(&header);
            assert_eq!(bytes.len(), 2);
            assert_eq!(SerializedNameHeader::read(&bytes), Ok((header, 2)));
        }
    }
}

#[test]
fn header_is_packed_most_significant_byte_first() {
    assert_eq!(encode(&SerializedNameHeader { is_utf16: false, len: 2 }), vec![0x00, 0x02]);
    assert_eq!(encode(&SerializedNameHeader { is_utf16: true, len: 0x1234 }), vec![0x92, 0x34]);
    assert_eq!(
        SerializedNameHeader::read(&[0xFF, 0xFF]),
        Ok((SerializedNameHeader { is_utf16: true, len: 0x7FFF }, 2))
    );
    assert_eq!(SerializedNameHeader::read(&[0x80]), Err(DecodeError::UnexpectedEnd));
}

#[test]
fn header_over_fifteen_bits_is_not_valid() {
    assert!(SerializedNameHeader { is_utf16: false, len: 0x7FFF }.is_valid());
    assert!(!SerializedNameHeader { is_utf16: false, len: 0x8000 }.is_valid());
}

#[test]
fn header_counts_bytes_by_width() {
    assert_eq!(SerializedNameHeader { is_utf16: false, len: 3 }.n_bytes(), 3);
    assert_eq!(SerializedNameHeader { is_utf16: true, len: 3 }.n_bytes(), 6);
    assert_eq!(SerializedNameHeader { is_utf16: true, len: 0xFFFF }.n_bytes(), 0x1FFFE);
}

// The batch of names.

#[test]
fn batch_of_one_name_is_laid_out_byte_for_byte() {
    let bytes = encode(&one_name());
    assert_eq!(
        bytes,
        vec![
            0x01, 0x00, 0x00, 0x00, // one name
            0x02, 0x00, 0x00, 0x00, // two bytes of names
            0x00, 0x00, 0x00, 0x00, 0x00, 0x00, 0x00, 0x00, // hash algorithm
            0xEF, 0xBE, 0xAD, 0xDE, 0x00, 0x00, 0x00, 0x00, // hash
            0x00, 0x02, // narrow, two units
            0x61, 0x00, // "a" and its terminator
        ]
    );
    assert_eq!(NamesBatch::read(&bytes), Ok((one_name(), 28)));
}

#[test]
fn batch_that_declares_one_byte_too_many_is_rejected() {
    let mut bytes = encode(&one_name());
    bytes[4] = 3;
    assert_eq!(
        NamesBatch::read(&bytes),
        Err(DecodeError::InconsistentLength { expected: 3, found: 2 })
    );
}

#[test]
fn batch_that_declares_one_byte_too_few_is_rejected() {
    let mut bytes = encode(&one_name());
    bytes[4] = 1;
    assert_eq!(
        NamesBatch::read(&bytes),
        Err(DecodeError::InconsistentLength { expected: 1, found: 2 })
    );
}

#[test]
fn batch_with_a_header_of_length_zero_is_rejected() {
    let mut bytes = encode(&one_name());
    bytes[25] = 0;
    assert_eq!(
        NamesBatch::read(&bytes),
        Err(DecodeError::InconsistentLength { expected: 1, found: 0 })
    );
    let batch = NamesBatch {
        hash_version: 0,
        hashes: vec![1],
        headers: vec![SerializedNameHeader { is_utf16: false, len: 0 }],
        strings: vec!["".to_string()],
    };
    assert!(!batch.is_valid());
}

#[test]
fn batch_with_a_name_that_is_not_terminated_is_rejected() {
    let mut bytes = encode(&one_name());
    bytes[27] = 0x62;
    assert_eq!(NamesBatch::read(&bytes), Err(DecodeError::InvalidTermination { unit: 0x62 }));
}

#[test]
fn batch_with_a_name_that_is_not_utf8_is_rejected() {
    let mut bytes = encode(&one_name());
    bytes[26] = 0xFF;
    assert_eq!(NamesBatch::read(&bytes), Err(DecodeError::InvalidEncoding));
}

#[test]
fn batch_that_ends_early_is_rejected() {
    let bytes = encode(&one_name());
    for cut in 0..bytes.len() {
        assert_eq!(NamesBatch::read(&bytes[..cut]), Err(DecodeError::UnexpectedEnd));
    }
}

#[test]
fn batch_with_a_wide_name_comes_back() {
    let batch = NamesBatch {
        hash_version: 7,
        hashes: vec![1, 2],
        headers: vec![
            SerializedNameHeader { is_utf16: true, len: 3 },
            SerializedNameHeader { is_utf16: false, len: 3 },
        ],
        strings: vec!["\u{1F647}".to_string(), "\u{e9}".to_string()],
    };
    let bytes = encode(&batch);
    assert_eq!(&bytes[4..8], &[9, 0, 0, 0]);
    assert_eq!(&bytes[32..], &[0x80, 0x03, 0x00, 0x03, 0x3D, 0xD8, 0x47, 0xDE, 0, 0, 0xC3, 0xA9, 0]);
    assert_eq!(NamesBatch::read(&bytes), Ok((batch, bytes.len())));
}

#[test]
fn batch_with_an_unpaired_surrogate_is_rejected() {
    let batch = NamesBatch {
        hash_version: 7,
        hashes: vec![1],
        headers: vec![SerializedNameHeader { is_utf16: true, len: 3 }],
        strings: vec!["\u{1F647}".to_string()],
    };
    let mut bytes = encode(&batch);
    let n = bytes.len();
    bytes[n - 4] = 0x41;
    bytes[n - 3] = 0x00;
    assert_eq!(NamesBatch::read(&bytes), Err(DecodeError::InvalidEncoding));
    bytes[n - 2] = 0x01;
    assert_eq!(NamesBatch::read(&bytes), Err(DecodeError::InvalidTermination { unit: 1 }));
}

#[test]
fn batch_with_sequences_of_different_length_is_not_valid() {
    let mut batch = one_name();
    batch.hashes.push(1);
    assert!(!batch.is_valid());
    let mut batch = one_name();
    batch.strings.push("b".to_string());
    assert!(!batch.is_valid());
    let mut batch = one_name();
    batch.headers[0].len = 3;
    assert!(!batch.is_valid());
    let mut batch = one_name();
    batch.headers[0].is_utf16 = true;
    assert!(batch.is_valid());
}

// The string with a signed length.

#[test]
fn text_below_u0080_is_written_with_a_positive_length() {
    let f = FString::from("OwO");
    assert_eq!(f, FString::Ansi(vec![0x4F, 0x77, 0x4F, 0x00]));
    assert_eq!(f.len(), 4);
    assert_eq!(encode(&f), vec![4, 0, 0, 0, 0x4F, 0x77, 0x4F, 0x00]);
    assert_eq!(f.to_string(), Ok("OwO".to_string()));
}

#[test]
fn text_from_u0080_on_is_written_with_a_negative_length_over_all_of_it() {
    let f = FString::from("a\u{e9}");
    assert_eq!(f, FString::Utf16(vec![0x61, 0xE9, 0]));
    assert_eq!(f.len(), 3);
    assert_eq!(encode(&f), vec![0xFD, 0xFF, 0xFF, 0xFF, 0x61, 0x00, 0xE9, 0x00, 0x00, 0x00]);
    assert_eq!(f.to_string(), Ok("a\u{e9}".to_string()));
    let f = FString::from("\u{80}");
    assert_eq!(f, FString::Utf16(vec![0x80, 0]));
    let f = FString::from("\u{7f}");
    assert_eq!(f, FString::Ansi(vec![0x7F, 0]));
}

#[test]
fn text_beyond_the_basic_plane_takes_a_surrogate_pair() {
    let f = FString::from("\u{1F647}");
    assert_eq!(f, FString::Utf16(vec![0xD83D, 0xDE47, 0]));
    assert_eq!(f.to_string(), Ok("\u{1F647}".to_string()));
    let f = FString::from("\u{10000}\u{10FFFF}\u{FFFF}");
    assert_eq!(f, FString::Utf16(vec![0xD800, 0xDC00, 0xDBFF, 0xDFFF, 0xFFFF, 0]));
    assert_eq!(f.to_string(), Ok("\u{10000}\u{10FFFF}\u{FFFF}".to_string()));
}

#[test]
fn empty_text_is_a_lone_terminator() {
    let f = FString::from("");
    assert_eq!(f, FString::Ansi(vec![0]));
    assert_eq!(encode(&f), vec![1, 0, 0, 0, 0]);
    assert_eq!(f.to_string(), Ok(String::new()));
}

#[test]
fn string_of_length_zero_is_rejected() {
    assert_eq!(
        FString::read(&[0, 0, 0, 0, 1, 2]),
        Err(DecodeError::InconsistentLength { expected: 1, found: 0 })
    );
    assert!(!FString::Ansi(vec![]).is_valid());
    assert!(!FString::Utf16(vec![]).is_valid());
    assert_eq!(
        FString::Ansi(vec![]).to_string(),
        Err(DecodeError::InconsistentLength { expected: 1, found: 0 })
    );
}

#[test]
fn string_of_the_least_length_is_rejected() {
    assert_eq!(
        FString::read(&[0x00, 0x00, 0x00, 0x80, 0, 0]),
        Err(DecodeError::OversizedField {
            limit: MAX_STRING_SERIALIZATION_SIZE,
            found: 0x8000_0000
        })
    );
}

#[test]
fn string_over_the_bound_is_rejected_before_it_is_read() {
    assert_eq!(MAX_STRING_SERIALIZATION_SIZE, 16 * 1024 * 1024);
    assert_eq!(
        FString::read(&[0x01, 0x00, 0x00, 0x01]),
        Err(DecodeError::OversizedField { limit: 0x100_0000, found: 0x100_0001 })
    );
    assert_eq!(
        FString::read(&[0xFF, 0xFF, 0xFF, 0xFE]),
        Err(DecodeError::OversizedField { limit: 0x100_0000, found: 0x100_0001 })
    );
    assert_eq!(FString::read(&[0x00, 0x00, 0x00, 0x01]), Err(DecodeError::UnexpectedEnd));
    assert_eq!(FString::read(&[0x00, 0x00, 0x00, 0xFF]), Err(DecodeError::UnexpectedEnd));
}

#[test]
fn narrow_string_is_read_as_it_is() {
    assert_eq!(FString::read(&[2, 0, 0, 0, 0xFF, 0x41, 9]), Ok((FString::Ansi(vec![0xFF, 0x41]), 6)));
    assert_eq!(FString::read(&[2, 0, 0, 0, 0xFF]), Err(DecodeError::UnexpectedEnd));
    assert_eq!(FString::Ansi(vec![0xFF, 0x41]).to_string(), Err(DecodeError::InvalidEncoding));
}

#[test]
fn wide_string_has_to_end_in_zero_and_hold_utf16() {
    assert_eq!(
        FString::read(&[0xFE, 0xFF, 0xFF, 0xFF, 0x41, 0x00, 0x00, 0x00]),
        Ok((FString::Utf16(vec![0x41, 0]), 8))
    );
    assert_eq!(
        FString::read(&[0xFE, 0xFF, 0xFF, 0xFF, 0x41, 0x00, 0x42, 0x00]),
        Err(DecodeError::InvalidTermination { unit: 0x42 })
    );
    assert_eq!(
        FString::read(&[0xFE, 0xFF, 0xFF, 0xFF, 0x00, 0xDC, 0x00, 0x00]),
        Err(DecodeError::InvalidEncoding)
    );
    assert_eq!(
        FString::read(&[0xFE, 0xFF, 0xFF, 0xFF, 0x41, 0x00, 0x00]),
        Err(DecodeError::UnexpectedEnd)
    );
    assert!(!FString::Utf16(vec![0x41]).is_valid());
    assert!(!FString::Utf16(vec![0xD800, 0]).is_valid());
    assert_eq!(FString::Utf16(vec![0xD800, 0]).to_string(), Err(DecodeError::InvalidEncoding));
}

#[test]
fn pure_ansi_is_a_test_on_code_points() {
    assert!(is_pure_ansi(""));
    assert!(is_pure_ansi("plain \u{7f}"));
    assert!(!is_pure_ansi("pl\u{e4}in"));
    assert!(!is_pure_ansi("\u{80}"));
}

// Terminated text.

#[test]
fn terminated_text_in_both_widths() {
    let mut out = vec![];
    write_text(&mut out, false, "h\u{e9}");
    assert_eq!(out, vec![0x68, 0xC3, 0xA9, 0x00]);
    assert_eq!(text_units(false, "h\u{e9}"), 3);
    assert_eq!(read_text(&out, false, 4), Ok(("h\u{e9}".to_string(), 4)));
    let mut out = vec![];
    write_text(&mut out, true, "h\u{e9}");
    assert_eq!(out, vec![0x68, 0x00, 0xE9, 0x00, 0x00, 0x00]);
    assert_eq!(text_units(true, "h\u{e9}"), 2);
    assert_eq!(read_text(&out, true, 3), Ok(("h\u{e9}".to_string(), 6)));
    assert_eq!(read_text(&out, true, 4), Err(DecodeError::UnexpectedEnd));
    assert_eq!(
        read_text(&out, true, 0),
        Err(DecodeError::InconsistentLength { expected: 1, found: 0 })
    );
    assert_eq!(
        read_text(&out, false, 0),
        Err(DecodeError::InconsistentLength { expected: 1, found: 0 })
    );
}

// The blob of text.

#[test]
fn text_blob_carries_its_length_with_the_terminator() {
    let text = FText::from("h\u{e9}");
    assert_eq!(text.as_bytes(), &[0x68, 0xC3, 0xA9, 0x00]);
    assert_eq!(encode(&text), vec![4, 0, 0, 0, 0x68, 0xC3, 0xA9, 0x00]);
    assert_eq!(text.try_into_string(), Ok("h\u{e9}".to_string()));
    assert_eq!(FText::read(&[1, 0, 0, 0, 0, 7]), Ok((FText::from(""), 5)));
}

#[test]
fn text_blob_is_held_to_its_rules() {
    assert_eq!(
        FText::read(&[0, 0, 0, 0]),
        Err(DecodeError::InconsistentLength { expected: 1, found: 0 })
    );
    assert_eq!(
        FText::read(&[2, 0, 0, 0, 0x41, 0x42]),
        Err(DecodeError::InvalidTermination { unit: 0x42 })
    );
    assert_eq!(FText::read(&[3, 0, 0, 0, 0x41, 0x00]), Err(DecodeError::UnexpectedEnd));
    assert_eq!(
        FText::read(&[0xFF, 0xFF, 0xFF, 0x7F]),
        Err(DecodeError::OversizedField { limit: MAX_TEXT_BYTES, found: 0x7FFF_FFFF })
    );
    assert!(!FText::from_raw(vec![]).is_valid());
    assert!(!FText::from_raw(vec![0x41]).is_valid());
    assert!(FText::from_raw(vec![0xFF, 0x00]).is_valid());
    assert_eq!(
        FText::from_raw(vec![]).try_into_string(),
        Err(DecodeError::InconsistentLength { expected: 1, found: 0 })
    );
    assert_eq!(
        FText::from_raw(vec![0x41]).try_into_string(),
        Err(DecodeError::InvalidTermination { unit: 0x41 })
    );
    assert_eq!(FText::from_raw(vec![0xFF, 0x00]).try_into_string(), Err(DecodeError::InvalidEncoding));
}

// The packed reference to a value.

#[test]
fn value_reference_is_a_kind_and_an_index() {
    let id = FValueId::try_from_u32(0x1A).unwrap();
    assert_eq!(id.value_type(), ValueType::Name);
    assert_eq!(id.index(), 3);
    assert_eq!(id.to_u32(), 0x1A);
    let id = FValueId::try_from_u32(0xFFFF_FFF9).unwrap();
    assert_eq!(id.value_type(), ValueType::Pointer);
    assert_eq!(id.index(), 0x1FFF_FFFF);
    let id = FValueId::try_from_u32(0).unwrap();
    assert_eq!(id.value_type(), ValueType::Nothing);
    assert_eq!(id.index(), 0);
    assert_eq!(FValueId::TYPE_BITS + FValueId::INDEX_BITS, 32);
}

#[test]
fn value_reference_of_an_unknown_kind_is_rejected() {
    for index in [0u32, 1, 0x1FFF_FFFF] {
        for kind in 0..8u32 {
            let word = index << 3 | kind;
            let bytes = word.to_le_bytes();
            if kind <= 2 {
                let (id, used) = FValueId::read(&bytes).unwrap();
                assert_eq!(used, 4);
                assert_eq!(id.to_u32(), word);
                assert_eq!(id.value_type().ordinal(), kind);
                assert_eq!(ValueType::from_ordinal(kind), Some(id.value_type()));
            } else {
                assert_eq!(FValueId::try_from_u32(word), Err(DecodeError::UnknownTag { found: kind }));
                assert_eq!(FValueId::read(&bytes), Err(DecodeError::UnknownTag { found: kind }));
                assert_eq!(ValueType::from_ordinal(kind), None);
            }
        }
    }
}

#[test]
fn pair_with_an_unknown_kind_is_rejected() {
    let bytes = [1, 0, 0, 0, 2, 0, 0, 0, 0x0B, 0, 0, 0];
    assert_eq!(FNumberedPair::read(&bytes), Err(DecodeError::UnknownTag { found: 3 }));
    assert_eq!(FNumberlessPair::read(&bytes[4..]), Err(DecodeError::UnknownTag { found: 3 }));
    let (pair, used) = FNumberlessPair::read(&[1, 0, 0, 0, 0x0A, 0, 0, 0]).unwrap();
    assert_eq!(used, 8);
    assert_eq!(pair.key, FDisplayNameEntryId(FNameEntryId(1)));
    assert_eq!(pair.value.index(), 1);
    assert_eq!(pair.value.value_type(), ValueType::Name);
}

// Leaf records.

#[test]
fn leaf_records_are_laid_out_field_by_field() {
    assert_eq!(encode(&FName { index: 0x0102, number: 3 }), vec![2, 1, 0, 0, 3, 0, 0, 0]);
    assert_eq!(encode(&FNameEntryId(5)), vec![5, 0, 0, 0]);
    assert_eq!(encode(&FDisplayNameEntryId(FNameEntryId(6))), vec![6, 0, 0, 0]);
    assert_eq!(
        encode(&FNumberlessExportPath {
            class: FDisplayNameEntryId(FNameEntryId(1)),
            object: FDisplayNameEntryId(FNameEntryId(2)),
            package: FDisplayNameEntryId(FNameEntryId(3)),
        }),
        vec![1, 0, 0, 0, 2, 0, 0, 0, 3, 0, 0, 0]
    );
    let path = AssetRegistryExportPath {
        class_path: FTopLevelAssetPath {
            package_name: FName { index: 1, number: 2 },
            asset_name: FName { index: 3, number: 4 },
        },
        package: FName { index: 5, number: 6 },
        object: FName { index: 7, number: 8 },
    };
    let bytes = encode(&path);
    assert_eq!(
        bytes,
        vec![
            1, 0, 0, 0, 2, 0, 0, 0, 3, 0, 0, 0, 4, 0, 0, 0, 5, 0, 0, 0, 6, 0, 0, 0, 7, 0, 0, 0,
            8, 0, 0, 0
        ]
    );
    assert_eq!(AssetRegistryExportPath::read(&bytes), Ok((path, 32)));
    assert_eq!(AssetRegistryExportPath::read(&bytes[..31]), Err(DecodeError::UnexpectedEnd));
    assert_eq!(FTopLevelAssetPath::read(&bytes), Ok((path.class_path, 16)));
}

#[test]
fn legacy_bool_is_a_word_of_zero_or_one() {
    assert_eq!(encode(&UnrealBool(true)), vec![1, 0, 0, 0]);
    assert_eq!(encode(&UnrealBool(false)), vec![0, 0, 0, 0]);
    assert_eq!(UnrealBool::read(&[1, 0, 0, 0]), Ok((UnrealBool(true), 4)));
    assert_eq!(UnrealBool::read(&[0, 0, 0, 0]), Ok((UnrealBool(false), 4)));
    assert_eq!(UnrealBool::read(&[2, 0, 0, 0]), Err(DecodeError::UnknownTag { found: 2 }));
    assert_eq!(UnrealBool::read(&[1, 0, 0]), Err(DecodeError::UnexpectedEnd));
}

// The versioned header.

#[test]
fn header_is_the_identifier_and_the_version() {
    let bytes = encode(&AssetRegistryHeader { version: AssetRegistryVersion::AddedHardManage });
    let mut expected = ASSET_REGISTRY_VERSION_GUID.to_vec();
    expected.extend_from_slice(&[5, 0, 0, 0]);
    assert_eq!(bytes, expected);
    assert_eq!(bytes[0], 0xE7);
    assert_eq!(bytes[15], 0x1B);
}

#[test]
fn header_with_another_identifier_is_rejected() {
    let good = encode(&AssetRegistryHeader { version: AssetRegistryVersion::FixedTags });
    let words = [GUID_A, GUID_B, GUID_C, GUID_D];
    assert_eq!(words, [0x717F_9EE7, 0xE9B0_493A, 0x88B3_9132, 0x1B38_8107]);
    for i in 0..16 {
        let mut bytes = good.clone();
        bytes[i] ^= 1;
        let expected = words[i / 4];
        let found = expected ^ (1 << (8 * (i % 4)));
        assert_eq!(
            AssetRegistryHeader::read(&bytes),
            Err(DecodeError::MalformedMagic { expected, found })
        );
    }
    let mut bytes = good.clone();
    bytes[0] = 0;
    bytes[15] = 0;
    assert_eq!(
        AssetRegistryHeader::read(&bytes),
        Err(DecodeError::MalformedMagic { expected: 0x717F_9EE7, found: 0x717F_9E00 })
    );
    assert_eq!(AssetRegistryHeader::read(&good[..15]), Err(DecodeError::UnexpectedEnd));
    assert_eq!(AssetRegistryHeader::read(&good[..19]), Err(DecodeError::UnexpectedEnd));
}

#[test]
fn every_known_version_is_read_and_no_other() {
    let known = [
        AssetRegistryVersion::PreVersioning,
        AssetRegistryVersion::HardSoftDependencies,
        AssetRegistryVersion::AddAssetRegistryState,
        AssetRegistryVersion::ChangedAssetData,
        AssetRegistryVersion::RemovedMD5Hash,
        AssetRegistryVersion::AddedHardManage,
        AssetRegistryVersion::AddedCookedMD5Hash,
        AssetRegistryVersion::AddedDependencyFlags,
        AssetRegistryVersion::FixedTags,
    ];
    for (n, version) in known.iter().enumerate() {
        assert_eq!(version.ordinal(), n as u32);
        assert_eq!(AssetRegistryVersion::from_ordinal(n as u32), Ok(*version));
        let mut bytes = ASSET_REGISTRY_VERSION_GUID.to_vec();
        bytes.extend_from_slice(&(n as u32).to_le_bytes());
        assert_eq!(AssetRegistryHeader::read(&bytes), Ok((AssetRegistryHeader { version: *version }, 20)));
        for other in known.iter() {
            assert_eq!(version.at_least(*other), version >= other);
            assert_eq!(version.at_least(*other), version.ordinal() >= other.ordinal());
        }
    }
    assert_eq!(
        AssetRegistryVersion::from_ordinal(9),
        Err(DecodeError::UnsupportedVersion { found: 9 })
    );
    let mut bytes = ASSET_REGISTRY_VERSION_GUID.to_vec();
    bytes.extend_from_slice(&[9, 0, 0, 0]);
    assert_eq!(AssetRegistryHeader::read(&bytes), Err(DecodeError::UnsupportedVersion { found: 9 }));
    assert_eq!(AssetRegistryVersion::LATEST_VERSION, AssetRegistryVersion::FixedTags);
}

#[test]
fn registry_is_written_in_the_newest_version_and_read_in_any() {
    let registry = AssetRegistry { names: one_name() };
    let mut bytes = encode(&registry);
    assert_eq!(&bytes[16..20], &[8, 0, 0, 0]);
    assert_eq!(bytes.len(), 20 + 28);
    bytes[16] = 3;
    assert_eq!(AssetRegistry::read(&bytes), Ok((registry, 48)));
    bytes[16] = 9;
    assert_eq!(AssetRegistry::read(&bytes), Err(DecodeError::UnsupportedVersion { found: 9 }));
}

// The pools of strings.

#[test]
fn strings_are_taken_from_the_ranges_between_offsets() {
    let blob = b"abcd\0efghi\0";
    assert_eq!(
        read_blob(blob, vec![0, 5], 11, false),
        Ok((vec!["abcd".to_string(), "efghi".to_string()], 11))
    );
    assert_eq!(read_blob(blob, vec![], 11, false), Ok((vec![], 11)));
    assert_eq!(read_blob(blob, vec![5], 11, false), Ok((vec!["efghi".to_string()], 11)));
    assert_eq!(read_blob(blob, vec![0, 5], 12, false), Err(DecodeError::UnexpectedEnd));
}

#[test]
fn offsets_that_do_not_grow_are_rejected() {
    let blob = b"abcd\0efghi\0";
    assert_eq!(
        read_blob(blob, vec![0, 0], 11, false),
        Err(DecodeError::InconsistentLength { expected: 0, found: 0 })
    );
    assert_eq!(
        read_blob(blob, vec![5, 0], 11, false),
        Err(DecodeError::InconsistentLength { expected: 5, found: 0 })
    );
    assert_eq!(
        read_blob(blob, vec![0, 11], 11, false),
        Err(DecodeError::InconsistentLength { expected: 11, found: 11 })
    );
    assert_eq!(
        read_blob(&[], vec![0], 0, false),
        Err(DecodeError::InconsistentLength { expected: 0, found: 0 })
    );
}

#[test]
fn offset_over_the_total_is_rejected() {
    let blob = b"abcd\0efghi\0";
    assert_eq!(
        read_blob(blob, vec![0, 12], 11, false),
        Err(DecodeError::OversizedField { limit: 11, found: 12 })
    );
    assert_eq!(
        read_blob(blob, vec![0, 5, 20], 11, false),
        Err(DecodeError::OversizedField { limit: 11, found: 20 })
    );
    assert_eq!(MAX_POOLED_STRING_BYTES, 0x7FFF_FFFF);
}

#[test]
fn pooled_string_has_to_be_terminated_and_valid() {
    assert_eq!(
        read_blob(b"abcd\0efghi!", vec![0, 5], 11, false),
        Err(DecodeError::InvalidTermination { unit: 0x21 })
    );
    assert_eq!(read_blob(&[0xFF, 0x00], vec![0], 2, false), Err(DecodeError::InvalidEncoding));
    assert_eq!(read_blob(b"ab\0cd\0", vec![0], 6, false), Ok((vec!["ab\0cd".to_string()], 6)));
}

#[test]
fn wide_pool_counts_bytes_and_ends_in_a_unit_of_zero() {
    let blob = [0x68, 0x00, 0xE9, 0x00, 0x00, 0x00, 0x3D, 0xD8, 0x47, 0xDE, 0x00, 0x00];
    assert_eq!(
        read_blob(&blob, vec![0, 6], 12, true),
        Ok((vec!["h\u{e9}".to_string(), "\u{1F647}".to_string()], 12))
    );
    assert_eq!(read_blob(&blob, vec![0, 5], 12, true), Err(DecodeError::InvalidEncoding));
    assert_eq!(
        read_blob(&blob, vec![0, 4], 12, true),
        Err(DecodeError::InvalidTermination { unit: 0xE9 })
    );
    assert_eq!(
        read_blob(&blob, vec![0, 8], 12, true),
        Err(DecodeError::InvalidTermination { unit: 0xD83D })
    );
    assert_eq!(
        read_blob(&[0x00, 0xDC, 0x00, 0x00], vec![0], 4, true),
        Err(DecodeError::InvalidEncoding)
    );
}

#[test]
fn pool_is_laid_out_as_offsets_and_blob() {
    let strings = vec!["ab".to_string(), "".to_string(), "c".to_string()];
    assert!(pool_is_valid(false, &strings));
    assert_eq!(pool_total(false, &strings), 6);
    assert_eq!(pool_total(true, &strings), 12);
    let mut out = vec![];
    write_pool_offsets(&mut out, false, &strings);
    assert_eq!(out, vec![0, 0, 0, 0, 3, 0, 0, 0, 4, 0, 0, 0]);
    let mut out = vec![];
    write_pool_offsets(&mut out, true, &strings);
    assert_eq!(out, vec![0, 0, 0, 0, 6, 0, 0, 0, 8, 0, 0, 0]);
    let mut blob = vec![];
    write_pool_blob(&mut blob, false, &strings);
    assert_eq!(blob, b"ab\0\0c\0".to_vec());
    assert_eq!(read_blob(&blob, vec![0, 3, 4], 6, false), Ok((strings.clone(), 6)));
    let mut blob = vec![];
    write_pool_blob(&mut blob, true, &strings);
    assert_eq!(blob, vec![0x61, 0, 0x62, 0, 0, 0, 0, 0, 0x63, 0, 0, 0]);
    assert_eq!(read_blob(&blob, vec![0, 6, 8], 12, true), Ok((strings, 12)));
}

// The store.

#[test]
fn store_is_laid_out_byte_for_byte() {
    let bytes = encode(&small_store());
    let mut expected: Vec<u8> = vec![];
    expected.extend_from_slice(&[0x79, 0x56, 0x34, 0x12]);
    for count in [1u32, 1, 1, 1, 2, 1, 5, 4, 1, 1] {
        expected.extend_from_slice(&count.to_le_bytes());
    }
    expected.extend_from_slice(&[2, 0, 0, 0, 0x74, 0]);
    expected.extend_from_slice(&[1, 0, 0, 0, 2, 0, 0, 0]);
    expected.extend_from_slice(&[3, 0, 0, 0, 4, 0, 0, 0]);
    expected.extend_from_slice(&[5, 0, 0, 0, 6, 0, 0, 0, 7, 0, 0, 0]);
    expected.extend_from_slice(&[0, 0, 0, 0, 3, 0, 0, 0]);
    expected.extend_from_slice(&[0, 0, 0, 0]);
    expected.extend_from_slice(b"ab\0c\0");
    expected.extend_from_slice(&[0xE9, 0, 0, 0]);
    expected.extend_from_slice(&[8, 0, 0, 0, 0x11, 0, 0, 0]);
    expected.extend_from_slice(&[9, 0, 0, 0, 10, 0, 0, 0, 0x1A, 0, 0, 0]);
    expected.extend_from_slice(&[0x21, 0x43, 0x65, 0x87]);
    assert_eq!(bytes, expected);
    assert_eq!(StoreData::read(&bytes), Ok((small_store(), bytes.len())));
    assert_eq!(START_MAGIC, 0x12345679);
    assert_eq!(END_MAGIC, 0x87654321);
}

#[test]
fn store_header_is_ten_words() {
    let counts = StoreCounts {
        numberless_names: 1,
        names: 2,
        numberless_export_paths: 3,
        text_data: 4,
        ansi_strings: 5,
        wide_strings: 6,
        ansi_string_bytes: 7,
        wide_string_bytes: 8,
        numberless_pairs: 9,
        pairs: 10,
    };
    let bytes = encode(&counts);
    assert_eq!(bytes.len(), 40);
    for i in 0..10 {
        assert_eq!(&bytes[4 * i..4 * i + 4], &[i as u8 + 1, 0, 0, 0]);
    }
    assert_eq!(StoreCounts::read(&bytes), Ok((counts, 40)));
    assert_eq!(StoreCounts::read(&bytes[..39]), Err(DecodeError::UnexpectedEnd));
}

fn empty_store() -> StoreData {
    StoreData {
        text_data: vec![],
        numberless_names: vec![],
        names: vec![],
        numberless_export_paths: vec![],
        export_paths: vec![],
        ansi_strings: vec![],
        wide_strings: vec![],
        numberless_pairs: vec![],
        pairs: vec![],
    }
}

/// The bytes of a store whose header is the ten `counts` and whose content
/// is `content`, with `end` where the closing constant is due.
fn store_bytes(counts: [u32; 10], content: &[u8], end: u32) -> Vec<u8> {
    let mut bytes = 0x12345679u32.to_le_bytes().to_vec();
    for count in counts {
        bytes.extend_from_slice(&count.to_le_bytes());
    }
    bytes.extend_from_slice(content);
    bytes.extend_from_slice(&end.to_le_bytes());
    bytes
}

#[test]
fn empty_store_is_forty_eight_bytes() {
    let bytes = encode(&empty_store());
    assert_eq!(bytes, store_bytes([0; 10], &[], 0x87654321));
    assert_eq!(bytes.len(), 48);
    assert_eq!(StoreData::read(&bytes), Ok((empty_store(), 48)));
}

#[test]
fn store_of_two_narrow_strings_is_laid_out_byte_for_byte() {
    let mut store = empty_store();
    store.ansi_strings = vec!["abcd".to_string(), "hello".to_string()];
    let mut content = vec![0, 0, 0, 0, 5, 0, 0, 0];
    content.extend_from_slice(b"abcd\0hello\0");
    let expected = store_bytes([0, 0, 0, 0, 2, 0, 11, 0, 0, 0], &content, 0x87654321);
    assert_eq!(encode(&store), expected);
    assert_eq!(StoreData::read(&expected), Ok((store, expected.len())));
}

#[test]
fn store_of_one_narrow_string_is_held_to_its_end_and_its_terminator() {
    let mut store = empty_store();
    store.ansi_strings = vec!["a".to_string()];
    let counts = [0, 0, 0, 0, 1, 0, 2, 0, 0, 0];
    let good = store_bytes(counts, &[0, 0, 0, 0, 0x61, 0], 0x87654321);
    assert_eq!(encode(&store), good);
    assert_eq!(StoreData::read(&good), Ok((store, good.len())));
    assert_eq!(
        StoreData::read(&store_bytes(counts, &[0, 0, 0, 0, 0x61, 0], 0x87654320)),
        Err(DecodeError::MalformedMagic { expected: 0x87654321, found: 0x87654320 })
    );
    assert_eq!(
        StoreData::read(&store_bytes(counts, &[0, 0, 0, 0, 0x61, 0x62], 0x87654321)),
        Err(DecodeError::InvalidTermination { unit: 0x62 })
    );
}

#[test]
fn store_with_an_export_path_that_carries_numbers_is_not_valid() {
    let mut store = empty_store();
    assert!(store.is_valid());
    store.export_paths.push(FAssetRegistryExportPath {
        class: FName { index: 1, number: 2 },
        object: FName { index: 3, number: 4 },
        package: FName { index: 5, number: 6 },
    });
    assert!(!store.is_valid());
}

#[test]
fn store_with_another_end_is_rejected_after_its_content() {
    let good = encode(&small_store());
    let n = good.len();
    for trailer in [0u32, 0x8765_4320, 0x12345679, 0xFFFF_FFFF] {
        let mut bytes = good.clone();
        bytes[n - 4..].copy_from_slice(&trailer.to_le_bytes());
        assert_eq!(
            StoreData::read(&bytes),
            Err(DecodeError::MalformedMagic { expected: 0x87654321, found: trailer })
        );
    }
    // A fault in the content is found before the end is looked at.
    let mut bytes = good.clone();
    bytes[n - 1] = 0;
    bytes[n - 8] = 0x1B;
    assert_eq!(StoreData::read(&bytes), Err(DecodeError::UnknownTag { found: 3 }));
    assert_eq!(StoreData::read(&good[..n - 1]), Err(DecodeError::UnexpectedEnd));
}

#[test]
fn store_with_another_start_is_rejected_at_once() {
    let mut bytes = encode(&small_store());
    bytes[0] = 0x78;
    assert_eq!(
        StoreData::read(&bytes),
        Err(DecodeError::MalformedMagic { expected: 0x12345679, found: 0x12345678 })
    );
    assert_eq!(
        StoreData::read(&[0x78, 0x56, 0x34, 0x12]),
        Err(DecodeError::MalformedMagic { expected: 0x12345679, found: 0x12345678 })
    );
}

#[test]
fn store_with_corrupt_offsets_is_rejected() {
    let good = encode(&small_store());
    // The second offset of the narrow pool stands behind the opening
    // constant, the header, the blob of text, two names, a numberless path
    // and the first offset.
    let at = 4 + 40 + 6 + 8 + 8 + 12 + 4;
    assert_eq!(&good[at..at + 4], &[3, 0, 0, 0]);
    let mut bytes = good.clone();
    bytes[at] = 0;
    assert_eq!(
        StoreData::read(&bytes),
        Err(DecodeError::InconsistentLength { expected: 0, found: 0 })
    );
    let mut bytes = good.clone();
    bytes[at] = 6;
    assert_eq!(StoreData::read(&bytes), Err(DecodeError::OversizedField { limit: 5, found: 6 }));
    let mut bytes = good.clone();
    bytes[at] = 2;
    assert_eq!(StoreData::read(&bytes), Err(DecodeError::InvalidTermination { unit: 0x62 }));
}

#[test]
fn store_that_ends_early_is_rejected() {
    let bytes = encode(&small_store());
    for cut in 0..bytes.len() {
        assert_eq!(StoreData::read(&bytes[..cut]), Err(DecodeError::UnexpectedEnd));
    }
}

#[test]
fn store_with_a_text_that_cannot_be_encoded_is_not_valid() {
    let mut store = small_store();
    store.text_data.push(FText::from_raw(vec![1, 2]));
    assert!(!store.is_valid());
}

// Input that ends too soon.

/// Holds that every proper prefix of the encoding of `value` is rejected
/// for having ended too soon, and that the whole encoding is `value`.
fn rejected_when_cut<T: Readable + PartialEq + std::fmt::Debug>(value: T) {
    let bytes = encode(&value);
    for cut in 0..bytes.len() {
        assert_eq!(T::read(&bytes[..cut]), Err(DecodeError::UnexpectedEnd));
    }
    let used = bytes.len();
    assert_eq!(T::read(&bytes), Ok((value, used)));
}

#[test]
fn every_record_that_is_cut_short_is_rejected() {
    rejected_when_cut(FName { index: 1, number: 2 });
    rejected_when_cut(FValueId::try_from_u32(0x12).unwrap());
    rejected_when_cut(FNumberedPair {
        key: FName { index: 1, number: 2 },
        value: FValueId::try_from_u32(0x12).unwrap(),
    });
    rejected_when_cut(UnrealBool(true));
    rejected_when_cut(SerializedNameHeader { is_utf16: true, len: 7 });
    rejected_when_cut(FText::from("text"));
    rejected_when_cut(FString::from("narrow"));
    rejected_when_cut(FString::from("w\u{ee}de"));
    rejected_when_cut(AssetRegistryHeader { version: AssetRegistryVersion::FixedTags });
    rejected_when_cut(AssetRegistry { names: one_name() });
    rejected_when_cut(small_store());
    rejected_when_cut(empty_store());
}

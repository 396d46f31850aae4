//! The tag value store: arrays of records and two pools of strings, between
//! two framing constants and behind a header that counts them all.

use vstd::prelude::*;
use vstd::slice::slice_subrange;
use crate::error::DecodeError;
use crate::read::{
    agrees,
    decoded_array,
    lemma_array_cut,
    lemma_array_roundtrip,
    lemma_array_truncated,
    lemma_cut,
    lemma_concat_3,
    lemma_concat_5,
    lemma_concat_6,
    lemma_decoded_array_len,
    lemma_skip_more,
    lemma_skip_prefix,
    read_array,
    Decoded,
    Framed,
    Readable,
};
use crate::string_pool::{
    decoded_blob,
    lemma_blob_cut,
    lemma_blob_roundtrip,
    lemma_prefix_grows,
    pool_blob,
    pool_bytes,
    pool_is_valid,
    pool_offsets,
    pool_total,
    pool_valid,
    read_blob,
    write_pool_blob,
    write_pool_offsets,
};
use crate::unreal_types::fasset_registry_export_path::{
    FAssetRegistryExportPath,
    FNumberlessExportPath,
};
use crate::unreal_types::fname::FName;
use crate::unreal_types::fnumbered_pair::{
    FNumberedPair,
    FNumberedPairView,
    FNumberlessPair,
    FNumberlessPairView,
};
use crate::unreal_types::ftext::FText;
use crate::wire::{decoded_u32, le_u32, lemma_u32_roundtrip, read_u32, u32_le_bytes, write_u32};
use crate::write::{all_valid, array_is_valid, encoded_array, views, write_array, Writable};

verus! {

/// The constant that a store begins with.
pub const START_MAGIC: u32 = 0x12345679;

/// The constant that a store ends with.
pub const END_MAGIC: u32 = 0x87654321;

/// The number of words in the header of a store.
pub const COUNT_WORDS: u32 = 10;

/// A tag value store.
#[derive(Debug, PartialEq, Eq, Clone)]
pub struct StoreData {
    pub text_data: Vec<FText>,
    pub numberless_names: Vec<FName>,
    pub names: Vec<FName>,
    pub numberless_export_paths: Vec<FNumberlessExportPath>,
    /// The export paths that carry instance numbers. The header has no word
    /// that counts them: a store that is read holds none, and one that holds
    /// any cannot be written.
    pub export_paths: Vec<FAssetRegistryExportPath>,
    pub ansi_strings: Vec<String>,
    pub wide_strings: Vec<String>,
    pub numberless_pairs: Vec<FNumberlessPair>,
    pub pairs: Vec<FNumberedPair>,
}

/// What a tag value store holds.
pub struct StoreDataView {
    pub text_data: Seq<Seq<u8>>,
    pub numberless_names: Seq<FName>,
    pub names: Seq<FName>,
    pub numberless_export_paths: Seq<FNumberlessExportPath>,
    pub export_paths: Seq<FAssetRegistryExportPath>,
    pub ansi_strings: Seq<Seq<char>>,
    pub wide_strings: Seq<Seq<char>>,
    pub numberless_pairs: Seq<FNumberlessPairView>,
    pub pairs: Seq<FNumberedPairView>,
}

impl View for StoreData {
    type V = StoreDataView;

    open spec fn view(&self) -> StoreDataView {
        StoreDataView {
            text_data: views(self.text_data@),
            numberless_names: self.numberless_names@,
            names: self.names@,
            numberless_export_paths: self.numberless_export_paths@,
            export_paths: self.export_paths@,
            ansi_strings: views(self.ansi_strings@),
            wide_strings: views(self.wide_strings@),
            numberless_pairs: views(self.numberless_pairs@),
            pairs: views(self.pairs@),
        }
    }
}

/// The header of a store: the number of items of every array that the
/// layout has a place for and, for the two pools of strings, the number of
/// bytes of their blobs. The ten words stand on the wire in the order of the
/// fields.
#[derive(Debug, PartialEq, Eq, Clone, Copy)]
pub struct StoreCounts {
    pub numberless_names: u32,
    pub names: u32,
    pub numberless_export_paths: u32,
    pub text_data: u32,
    pub ansi_strings: u32,
    pub wide_strings: u32,
    pub ansi_string_bytes: u32,
    pub wide_string_bytes: u32,
    pub numberless_pairs: u32,
    pub pairs: u32,
}

impl View for StoreCounts {
    type V = StoreCounts;

    open spec fn view(&self) -> StoreCounts {
        *self
    }
}

impl StoreCounts {
    /// The words of the header, in their order on the wire.
    pub open spec fn words(self) -> Seq<u32> {
        seq![
            self.numberless_names,
            self.names,
            self.numberless_export_paths,
            self.text_data,
            self.ansi_strings,
            self.wide_strings,
            self.ansi_string_bytes,
            self.wide_string_bytes,
            self.numberless_pairs,
            self.pairs,
        ]
    }

    /// The header that ten words stand for.
    pub open spec fn of_words(words: Seq<u32>) -> StoreCounts {
        StoreCounts {
            numberless_names: words[0],
            names: words[1],
            numberless_export_paths: words[2],
            text_data: words[3],
            ansi_strings: words[4],
            wide_strings: words[5],
            ansi_string_bytes: words[6],
            wide_string_bytes: words[7],
            numberless_pairs: words[8],
            pairs: words[9],
        }
    }
}

impl Writable for StoreCounts {
    open spec fn valid(v: StoreCounts) -> bool {
        true
    }

    open spec fn encoded(v: StoreCounts) -> Seq<u8> {
        encoded_array::<u32>(v.words())
    }

    fn is_valid(&self) -> (ok: bool) {
        true
    }

    fn write(&self, out: &mut Vec<u8>) {
        let words: [u32; 10] = [
            self.numberless_names,
            self.names,
            self.numberless_export_paths,
            self.text_data,
            self.ansi_strings,
            self.wide_strings,
            self.ansi_string_bytes,
            self.wide_string_bytes,
            self.numberless_pairs,
            self.pairs,
        ];
        assert(views(words@) =~= self.words());
        write_array::<u32>(out, words.as_slice());
    }
}

impl Readable for StoreCounts {
    open spec fn decoded(bytes: Seq<u8>) -> Decoded<StoreCounts> {
        match decoded_array::<u32>(bytes, COUNT_WORDS as nat) {
            Ok((words, used)) => Ok((StoreCounts::of_words(words), used)),
            Err(e) => Err(e),
        }
    }

    fn read(buf: &[u8]) -> (r: Result<(StoreCounts, usize), DecodeError>) {
        let (words, used) = read_array::<u32>(COUNT_WORDS, buf)?;
        proof {
            assert(views(words@) =~= words@);
            lemma_decoded_array_len::<u32>(buf@, COUNT_WORDS as nat);
        }
        let counts = StoreCounts {
            numberless_names: words[0],
            names: words[1],
            numberless_export_paths: words[2],
            text_data: words[3],
            ansi_strings: words[4],
            wide_strings: words[5],
            ansi_string_bytes: words[6],
            wide_string_bytes: words[7],
            numberless_pairs: words[8],
            pairs: words[9],
        };
        Ok((counts, used))
    }

    proof fn lemma_roundtrip(v: StoreCounts, rest: Seq<u8>) {
        lemma_array_roundtrip::<u32>(v.words(), rest);
    }
}

/// Whether `v` can be encoded: the number of items of every array fits 32
/// bits, there is no export path with instance numbers, every record can be
/// encoded, and both pools of strings can be laid out.
#[verifier::opaque]
pub open spec fn store_valid(v: StoreDataView) -> bool {
    &&& v.text_data.len() <= u32::MAX
    &&& v.numberless_names.len() <= u32::MAX
    &&& v.names.len() <= u32::MAX
    &&& v.numberless_export_paths.len() <= u32::MAX
    &&& v.export_paths.len() == 0
    &&& v.numberless_pairs.len() <= u32::MAX
    &&& v.pairs.len() <= u32::MAX
    &&& all_valid::<FText>(v.text_data)
    &&& all_valid::<FNumberlessPair>(v.numberless_pairs)
    &&& all_valid::<FNumberedPair>(v.pairs)
    &&& pool_valid(false, v.ansi_strings)
    &&& pool_valid(true, v.wide_strings)
}

/// The header that counts what `v` holds.
pub open spec fn counts_of(v: StoreDataView) -> StoreCounts {
    StoreCounts {
        numberless_names: v.numberless_names.len() as u32,
        names: v.names.len() as u32,
        numberless_export_paths: v.numberless_export_paths.len() as u32,
        text_data: v.text_data.len() as u32,
        ansi_strings: v.ansi_strings.len() as u32,
        wide_strings: v.wide_strings.len() as u32,
        ansi_string_bytes: pool_bytes(false, v.ansi_strings) as u32,
        wide_string_bytes: pool_bytes(true, v.wide_strings) as u32,
        numberless_pairs: v.numberless_pairs.len() as u32,
        pairs: v.pairs.len() as u32,
    }
}

/// The arrays of records that stand before the pools of strings.
pub struct StoreRecords {
    pub text_data: Seq<Seq<u8>>,
    pub numberless_names: Seq<FName>,
    pub names: Seq<FName>,
    pub numberless_export_paths: Seq<FNumberlessExportPath>,
}

/// The two pools of strings.
pub struct StoreStrings {
    pub ansi_strings: Seq<Seq<char>>,
    pub wide_strings: Seq<Seq<char>>,
}

/// The two arrays of pairs.
pub struct StorePairs {
    pub numberless_pairs: Seq<FNumberlessPairView>,
    pub pairs: Seq<FNumberedPairView>,
}

/// The bytes of the arrays that stand before the pools of strings.
#[verifier::opaque]
pub open spec fn encoded_records(v: StoreRecords) -> Seq<u8> {
    encoded_array::<FText>(v.text_data) + encoded_array::<FName>(v.numberless_names)
        + encoded_array::<FName>(v.names) + encoded_array::<FNumberlessExportPath>(
        v.numberless_export_paths,
    )
}

/// The bytes of the two pools of strings: the two tables of offsets, then the
/// two blobs.
#[verifier::opaque]
pub open spec fn encoded_strings(v: StoreStrings) -> Seq<u8> {
    encoded_array::<u32>(pool_offsets(false, v.ansi_strings)) + encoded_array::<u32>(
        pool_offsets(true, v.wide_strings),
    ) + pool_blob(false, v.ansi_strings) + pool_blob(true, v.wide_strings)
}

/// The bytes of the two arrays of pairs.
#[verifier::opaque]
pub open spec fn encoded_pairs(v: StorePairs) -> Seq<u8> {
    encoded_array::<FNumberlessPair>(v.numberless_pairs) + encoded_array::<FNumberedPair>(v.pairs)
}

/// What the front of `bytes` stands for as the arrays that stand before the
/// pools, of the lengths that `c` gives.
#[verifier::opaque]
pub open spec fn decoded_records(bytes: Seq<u8>, c: StoreCounts) -> Decoded<StoreRecords> {
    match decoded_array::<FText>(bytes, c.text_data as nat) {
        Ok((text_data, n1)) => match decoded_array::<FName>(
            bytes.skip(n1),
            c.numberless_names as nat,
        ) {
            Ok((numberless_names, n2)) => match decoded_array::<FName>(
                bytes.skip(n1 + n2),
                c.names as nat,
            ) {
                Ok((names, n3)) => match decoded_array::<FNumberlessExportPath>(
                    bytes.skip(n1 + n2 + n3),
                    c.numberless_export_paths as nat,
                ) {
                    Ok((numberless_export_paths, n4)) => Ok(
                        (
                            StoreRecords {
                                text_data,
                                numberless_names,
                                names,
                                numberless_export_paths,
                            },
                            n1 + n2 + n3 + n4,
                        ),
                    ),
                    Err(e) => Err(e),
                },
                Err(e) => Err(e),
            },
            Err(e) => Err(e),
        },
        Err(e) => Err(e),
    }
}

/// What the front of `bytes` stands for as the two pools of strings, of the
/// lengths that `c` gives.
#[verifier::opaque]
pub open spec fn decoded_strings(bytes: Seq<u8>, c: StoreCounts) -> Decoded<StoreStrings> {
    match decoded_array::<u32>(bytes, c.ansi_strings as nat) {
        Ok((ansi_offsets, n1)) => match decoded_array::<u32>(
            bytes.skip(n1),
            c.wide_strings as nat,
        ) {
            Ok((wide_offsets, n2)) => match decoded_blob(
                bytes.skip(n1 + n2),
                ansi_offsets,
                c.ansi_string_bytes,
                false,
            ) {
                Ok((ansi_strings, n3)) => match decoded_blob(
                    bytes.skip(n1 + n2 + n3),
                    wide_offsets,
                    c.wide_string_bytes,
                    true,
                ) {
                    Ok((wide_strings, n4)) => Ok(
                        (StoreStrings { ansi_strings, wide_strings }, n1 + n2 + n3 + n4),
                    ),
                    Err(e) => Err(e),
                },
                Err(e) => Err(e),
            },
            Err(e) => Err(e),
        },
        Err(e) => Err(e),
    }
}

/// What the front of `bytes` stands for as the two arrays of pairs, of the
/// lengths that `c` gives.
#[verifier::opaque]
pub open spec fn decoded_pairs(bytes: Seq<u8>, c: StoreCounts) -> Decoded<StorePairs> {
    match decoded_array::<FNumberlessPair>(bytes, c.numberless_pairs as nat) {
        Ok((numberless_pairs, n1)) => match decoded_array::<FNumberedPair>(
            bytes.skip(n1),
            c.pairs as nat,
        ) {
            Ok((pairs, n2)) => Ok((StorePairs { numberless_pairs, pairs }, n1 + n2)),
            Err(e) => Err(e),
        },
        Err(e) => Err(e),
    }
}

impl StoreDataView {
    /// The arrays that stand before the pools of strings.
    pub open spec fn records(self) -> StoreRecords {
        StoreRecords {
            text_data: self.text_data,
            numberless_names: self.numberless_names,
            names: self.names,
            numberless_export_paths: self.numberless_export_paths,
        }
    }

    /// The two pools of strings.
    pub open spec fn strings(self) -> StoreStrings {
        StoreStrings { ansi_strings: self.ansi_strings, wide_strings: self.wide_strings }
    }

    /// The two arrays of pairs.
    pub open spec fn tagged(self) -> StorePairs {
        StorePairs { numberless_pairs: self.numberless_pairs, pairs: self.pairs }
    }

    /// The store that is made of three parts. It holds no export path with
    /// instance numbers.
    pub open spec fn of_parts(
        records: StoreRecords,
        strings: StoreStrings,
        tagged: StorePairs,
    ) -> StoreDataView {
        StoreDataView {
            text_data: records.text_data,
            numberless_names: records.numberless_names,
            names: records.names,
            numberless_export_paths: records.numberless_export_paths,
            export_paths: Seq::empty(),
            ansi_strings: strings.ansi_strings,
            wide_strings: strings.wide_strings,
            numberless_pairs: tagged.numberless_pairs,
            pairs: tagged.pairs,
        }
    }
}

/// The bytes of a store but for the constant that ends it.
pub open spec fn encoded_body(v: StoreDataView) -> Seq<u8> {
    u32_le_bytes(START_MAGIC) + StoreCounts::encoded(counts_of(v)) + encoded_records(v.records())
        + encoded_strings(v.strings()) + encoded_pairs(v.tagged())
}

/// What the front of `bytes` stands for as a store, up to the constant that
/// ends it. A first word that is not the constant that begins a store is
/// rejected at once.
pub open spec fn decoded_body(bytes: Seq<u8>) -> Decoded<StoreDataView> {
    match decoded_u32(bytes) {
        Ok((magic, _)) => if magic != START_MAGIC {
            Err(DecodeError::MalformedMagic { expected: START_MAGIC, found: magic })
        } else {
            match StoreCounts::decoded(bytes.skip(4)) {
                Ok((c, n0)) => match decoded_records(bytes.skip(4 + n0), c) {
                    Ok((records, n1)) => match decoded_strings(bytes.skip(4 + n0 + n1), c) {
                        Ok((strings, n2)) => match decoded_pairs(
                            bytes.skip(4 + n0 + n1 + n2),
                            c,
                        ) {
                            Ok((tagged, n3)) => Ok(
                                (
                                    StoreDataView::of_parts(records, strings, tagged),
                                    4 + n0 + n1 + n2 + n3,
                                ),
                            ),
                            Err(e) => Err(e),
                        },
                        Err(e) => Err(e),
                    },
                    Err(e) => Err(e),
                },
                Err(e) => Err(e),
            }
        },
        Err(e) => Err(e),
    }
}

/// The arrays that stand before the pools of strings, as they are decoded.
struct RecordArrays {
    text_data: Vec<FText>,
    numberless_names: Vec<FName>,
    names: Vec<FName>,
    numberless_export_paths: Vec<FNumberlessExportPath>,
}

impl View for RecordArrays {
    type V = StoreRecords;

    closed spec fn view(&self) -> StoreRecords {
        StoreRecords {
            text_data: views(self.text_data@),
            numberless_names: self.numberless_names@,
            names: self.names@,
            numberless_export_paths: self.numberless_export_paths@,
        }
    }
}

/// The two pools of strings, as they are decoded.
struct StringPools {
    ansi_strings: Vec<String>,
    wide_strings: Vec<String>,
}

impl View for StringPools {
    type V = StoreStrings;

    closed spec fn view(&self) -> StoreStrings {
        StoreStrings {
            ansi_strings: views(self.ansi_strings@),
            wide_strings: views(self.wide_strings@),
        }
    }
}

/// The two arrays of pairs, as they are decoded.
struct PairArrays {
    numberless_pairs: Vec<FNumberlessPair>,
    pairs: Vec<FNumberedPair>,
}

impl View for PairArrays {
    type V = StorePairs;

    closed spec fn view(&self) -> StorePairs {
        StorePairs { numberless_pairs: views(self.numberless_pairs@), pairs: views(self.pairs@) }
    }
}

/// Decodes the arrays that stand before the pools of strings.
fn read_records(buf: &[u8], c: &StoreCounts) -> (r: Result<(RecordArrays, usize), DecodeError>)
    ensures
        agrees(r, decoded_records(buf@, *c)),
        r matches Ok((_, used)) ==> used <= buf@.len(),
{
    proof {
        reveal(decoded_records);
    }
    let (text_data, n1) = read_array::<FText>(c.text_data, buf)?;
    let (numberless_names, n2) = read_array::<FName>(
        c.numberless_names,
        slice_subrange(buf, n1, buf.len()),
    )?;
    let (names, n3) = read_array::<FName>(c.names, slice_subrange(buf, n1 + n2, buf.len()))?;
    let (numberless_export_paths, n4) = read_array::<FNumberlessExportPath>(
        c.numberless_export_paths,
        slice_subrange(buf, n1 + n2 + n3, buf.len()),
    )?;
    proof {
        assert(views(numberless_names@) =~= numberless_names@);
        assert(views(names@) =~= names@);
        assert(views(numberless_export_paths@) =~= numberless_export_paths@);
    }
    Ok(
        (
            RecordArrays { text_data, numberless_names, names, numberless_export_paths },
            n1 + n2 + n3 + n4,
        ),
    )
}

/// Decodes the two pools of strings.
fn read_strings(buf: &[u8], c: &StoreCounts) -> (r: Result<(StringPools, usize), DecodeError>)
    ensures
        agrees(r, decoded_strings(buf@, *c)),
        r matches Ok((_, used)) ==> used <= buf@.len(),
{
    proof {
        reveal(decoded_strings);
    }
    let (ansi_offsets, n1) = read_array::<u32>(c.ansi_strings, buf)?;
    let (wide_offsets, n2) = read_array::<u32>(c.wide_strings, slice_subrange(buf, n1, buf.len()))?;
    proof {
        assert(views(ansi_offsets@) =~= ansi_offsets@);
        assert(views(wide_offsets@) =~= wide_offsets@);
    }
    let (ansi_strings, n3) = read_blob(
        slice_subrange(buf, n1 + n2, buf.len()),
        ansi_offsets,
        c.ansi_string_bytes,
        false,
    )?;
    let (wide_strings, n4) = read_blob(
        slice_subrange(buf, n1 + n2 + n3, buf.len()),
        wide_offsets,
        c.wide_string_bytes,
        true,
    )?;
    Ok((StringPools { ansi_strings, wide_strings }, n1 + n2 + n3 + n4))
}

/// Decodes the two arrays of pairs.
fn read_pairs(buf: &[u8], c: &StoreCounts) -> (r: Result<(PairArrays, usize), DecodeError>)
    ensures
        agrees(r, decoded_pairs(buf@, *c)),
        r matches Ok((_, used)) ==> used <= buf@.len(),
{
    proof {
        reveal(decoded_pairs);
    }
    let (numberless_pairs, n1) = read_array::<FNumberlessPair>(c.numberless_pairs, buf)?;
    let (pairs, n2) = read_array::<FNumberedPair>(c.pairs, slice_subrange(buf, n1, buf.len()))?;
    Ok((PairArrays { numberless_pairs, pairs }, n1 + n2))
}

/// Appends the arrays that stand before the pools of strings.
fn write_records(out: &mut Vec<u8>, store: &StoreData)
    requires
        all_valid::<FText>(store@.text_data),
    ensures
        final(out)@ == old(out)@ + encoded_records(store@.records()),
{
    proof {
        reveal(encoded_records);
    }
    write_array::<FText>(out, store.text_data.as_slice());
    proof {
        assert(views(store.numberless_names@) =~= store.numberless_names@);
        assert(views(store.names@) =~= store.names@);
        assert(views(store.numberless_export_paths@) =~= store.numberless_export_paths@);
    }
    write_array::<FName>(out, store.numberless_names.as_slice());
    write_array::<FName>(out, store.names.as_slice());
    write_array::<FNumberlessExportPath>(out, store.numberless_export_paths.as_slice());
}

/// Appends the two pools of strings.
fn write_strings(out: &mut Vec<u8>, store: &StoreData)
    requires
        pool_valid(false, store@.ansi_strings),
        pool_valid(true, store@.wide_strings),
    ensures
        final(out)@ == old(out)@ + encoded_strings(store@.strings()),
{
    proof {
        reveal(encoded_strings);
    }
    write_pool_offsets(out, false, &store.ansi_strings);
    write_pool_offsets(out, true, &store.wide_strings);
    write_pool_blob(out, false, &store.ansi_strings);
    write_pool_blob(out, true, &store.wide_strings);
}

/// Appends the two arrays of pairs.
fn write_pairs(out: &mut Vec<u8>, store: &StoreData)
    requires
        all_valid::<FNumberlessPair>(store@.numberless_pairs),
        all_valid::<FNumberedPair>(store@.pairs),
    ensures
        final(out)@ == old(out)@ + encoded_pairs(store@.tagged()),
{
    proof {
        reveal(encoded_pairs);
    }
    write_array::<FNumberlessPair>(out, store.numberless_pairs.as_slice());
    write_array::<FNumberedPair>(out, store.pairs.as_slice());
}

impl StoreData {
    /// The header that counts what this store holds.
    fn counts(&self) -> (c: StoreCounts)
        requires
            Self::valid(self@),
        ensures
            c == counts_of(self@),
    {
        proof {
            reveal(store_valid);
        }
        StoreCounts {
            numberless_names: self.numberless_names.len() as u32,
            names: self.names.len() as u32,
            numberless_export_paths: self.numberless_export_paths.len() as u32,
            text_data: self.text_data.len() as u32,
            ansi_strings: self.ansi_strings.len() as u32,
            wide_strings: self.wide_strings.len() as u32,
            ansi_string_bytes: pool_total(false, &self.ansi_strings),
            wide_string_bytes: pool_total(true, &self.wide_strings),
            numberless_pairs: self.numberless_pairs.len() as u32,
            pairs: self.pairs.len() as u32,
        }
    }
}

impl Writable for StoreData {
    open spec fn valid(v: StoreDataView) -> bool {
        store_valid(v)
    }

    open spec fn encoded(v: StoreDataView) -> Seq<u8> {
        encoded_body(v) + u32_le_bytes(END_MAGIC)
    }

    fn is_valid(&self) -> (ok: bool) {
        proof {
            reveal(store_valid);
        }
        let max = u32::MAX as usize;
        self.text_data.len() <= max && self.numberless_names.len() <= max && self.names.len()
            <= max && self.numberless_export_paths.len() <= max && self.export_paths.len() == 0
            && self.numberless_pairs.len() <= max && self.pairs.len() <= max && array_is_valid::<
            FText,
        >(self.text_data.as_slice()) && array_is_valid::<FNumberlessPair>(
            self.numberless_pairs.as_slice(),
        ) && array_is_valid::<FNumberedPair>(self.pairs.as_slice()) && pool_is_valid(
            false,
            &self.ansi_strings,
        ) && pool_is_valid(true, &self.wide_strings)
    }

    fn write(&self, out: &mut Vec<u8>) {
        proof {
            reveal(store_valid);
        }
        let counts = self.counts();
        write_u32(out, START_MAGIC);
        counts.write(out);
        write_records(out, self);
        write_strings(out, self);
        write_pairs(out, self);
        write_u32(out, END_MAGIC);
    }
}

impl Readable for StoreData {
    /// The content is decoded in full before the constant that ends the
    /// store is looked at.
    open spec fn decoded(bytes: Seq<u8>) -> Decoded<StoreDataView> {
        match decoded_body(bytes) {
            Ok((v, used)) => match decoded_u32(bytes.skip(used)) {
                Ok((magic, _)) => if magic != END_MAGIC {
                    Err(DecodeError::MalformedMagic { expected: END_MAGIC, found: magic })
                } else {
                    Ok((v, used + 4))
                },
                Err(e) => Err(e),
            },
            Err(e) => Err(e),
        }
    }

    fn read(buf: &[u8]) -> (r: Result<(StoreData, usize), DecodeError>) {
        let (start_magic, _) = read_u32(buf)?;
        if start_magic != START_MAGIC {
            return Err(DecodeError::MalformedMagic { expected: START_MAGIC, found: start_magic });
        }
        let (counts, n0) = StoreCounts::read(slice_subrange(buf, 4, buf.len()))?;
        let (records, n1) = read_records(slice_subrange(buf, 4 + n0, buf.len()), &counts)?;
        let (strings, n2) = read_strings(slice_subrange(buf, 4 + n0 + n1, buf.len()), &counts)?;
        let (tagged, n3) = read_pairs(slice_subrange(buf, 4 + n0 + n1 + n2, buf.len()), &counts)?;
        let used = 4 + n0 + n1 + n2 + n3;
        let (end_magic, _) = read_u32(slice_subrange(buf, used, buf.len()))?;
        if end_magic != END_MAGIC {
            return Err(DecodeError::MalformedMagic { expected: END_MAGIC, found: end_magic });
        }
        let store = StoreData {
            text_data: records.text_data,
            numberless_names: records.numberless_names,
            names: records.names,
            numberless_export_paths: records.numberless_export_paths,
            export_paths: Vec::new(),
            ansi_strings: strings.ansi_strings,
            wide_strings: strings.wide_strings,
            numberless_pairs: tagged.numberless_pairs,
            pairs: tagged.pairs,
        };
        Ok((store, used + 4))
    }

    proof fn lemma_roundtrip(v: StoreDataView, rest: Seq<u8>) {
        let body = encoded_body(v);
        let tail = u32_le_bytes(END_MAGIC) + rest;
        lemma_concat_3(body, u32_le_bytes(END_MAGIC), rest);
        lemma_body_roundtrip(v, tail);
        lemma_skip_prefix(body, tail);
        lemma_u32_roundtrip(END_MAGIC, rest);
    }
}

/// The arrays that stand before the pools of strings come back from their
/// bytes.
pub proof fn lemma_records_roundtrip(v: StoreRecords, c: StoreCounts, rest: Seq<u8>)
    requires
        all_valid::<FText>(v.text_data),
        c.text_data == v.text_data.len(),
        c.numberless_names == v.numberless_names.len(),
        c.names == v.names.len(),
        c.numberless_export_paths == v.numberless_export_paths.len(),
    ensures
        decoded_records(encoded_records(v) + rest, c) == Ok::<(StoreRecords, int), DecodeError>(
            (v, encoded_records(v).len() as int),
        ),
{
    reveal(encoded_records);
    reveal(decoded_records);
    let e1 = encoded_array::<FText>(v.text_data);
    let e2 = encoded_array::<FName>(v.numberless_names);
    let e3 = encoded_array::<FName>(v.names);
    let e4 = encoded_array::<FNumberlessExportPath>(v.numberless_export_paths);
    let t4 = e4 + rest;
    let t3 = e3 + t4;
    let t2 = e2 + t3;
    let whole = e1 + t2;
    lemma_concat_5(e1, e2, e3, e4, rest);
    lemma_array_roundtrip::<FText>(v.text_data, t2);
    lemma_array_roundtrip::<FName>(v.numberless_names, t3);
    lemma_array_roundtrip::<FName>(v.names, t4);
    lemma_array_roundtrip::<FNumberlessExportPath>(v.numberless_export_paths, rest);
    let n1 = e1.len() as int;
    let n2 = e2.len() as int;
    let n3 = e3.len() as int;
    assert(whole.skip(n1) == t2) by {
        lemma_skip_prefix(e1, t2);
    }
    assert(whole.skip(n1 + n2) == t3) by {
        lemma_skip_prefix(e2, t3);
        lemma_skip_more(whole, n1, n2);
    }
    assert(whole.skip(n1 + n2 + n3) == t4) by {
        lemma_skip_prefix(e3, t4);
        lemma_skip_more(whole, n1 + n2, n3);
    }
}

/// The two pools of strings come back from their bytes.
pub proof fn lemma_strings_roundtrip(v: StoreStrings, c: StoreCounts, rest: Seq<u8>)
    requires
        pool_valid(false, v.ansi_strings),
        pool_valid(true, v.wide_strings),
        c.ansi_strings == v.ansi_strings.len(),
        c.wide_strings == v.wide_strings.len(),
        c.ansi_string_bytes == pool_bytes(false, v.ansi_strings),
        c.wide_string_bytes == pool_bytes(true, v.wide_strings),
    ensures
        decoded_strings(encoded_strings(v) + rest, c) == Ok::<(StoreStrings, int), DecodeError>(
            (v, encoded_strings(v).len() as int),
        ),
{
    reveal(encoded_strings);
    reveal(decoded_strings);
    let e1 = encoded_array::<u32>(pool_offsets(false, v.ansi_strings));
    let e2 = encoded_array::<u32>(pool_offsets(true, v.wide_strings));
    let e3 = pool_blob(false, v.ansi_strings);
    let e4 = pool_blob(true, v.wide_strings);
    let t4 = e4 + rest;
    let t3 = e3 + t4;
    let t2 = e2 + t3;
    let whole = e1 + t2;
    lemma_concat_5(e1, e2, e3, e4, rest);
    lemma_array_roundtrip::<u32>(pool_offsets(false, v.ansi_strings), t2);
    lemma_array_roundtrip::<u32>(pool_offsets(true, v.wide_strings), t3);
    lemma_blob_roundtrip(false, v.ansi_strings, t4);
    lemma_blob_roundtrip(true, v.wide_strings, rest);
    let n1 = e1.len() as int;
    let n2 = e2.len() as int;
    let n3 = e3.len() as int;
    assert(whole.skip(n1) == t2) by {
        lemma_skip_prefix(e1, t2);
    }
    assert(whole.skip(n1 + n2) == t3) by {
        lemma_skip_prefix(e2, t3);
        lemma_skip_more(whole, n1, n2);
    }
    assert(whole.skip(n1 + n2 + n3) == t4) by {
        lemma_skip_prefix(e3, t4);
        lemma_skip_more(whole, n1 + n2, n3);
    }
}

/// The two arrays of pairs come back from their bytes.
pub proof fn lemma_pairs_roundtrip(v: StorePairs, c: StoreCounts, rest: Seq<u8>)
    requires
        all_valid::<FNumberlessPair>(v.numberless_pairs),
        all_valid::<FNumberedPair>(v.pairs),
        c.numberless_pairs == v.numberless_pairs.len(),
        c.pairs == v.pairs.len(),
    ensures
        decoded_pairs(encoded_pairs(v) + rest, c) == Ok::<(StorePairs, int), DecodeError>(
            (v, encoded_pairs(v).len() as int),
        ),
{
    reveal(encoded_pairs);
    reveal(decoded_pairs);
    let e1 = encoded_array::<FNumberlessPair>(v.numberless_pairs);
    let e2 = encoded_array::<FNumberedPair>(v.pairs);
    let t2 = e2 + rest;
    lemma_concat_3(e1, e2, rest);
    lemma_array_roundtrip::<FNumberlessPair>(v.numberless_pairs, t2);
    lemma_array_roundtrip::<FNumberedPair>(v.pairs, rest);
    lemma_skip_prefix(e1, t2);
}

/// What the parts of a store that can be encoded have to meet, they meet.
proof fn lemma_parts_ready(v: StoreDataView)
    requires
        StoreData::valid(v),
    ensures
        all_valid::<FText>(v.records().text_data),
        counts_of(v).text_data == v.records().text_data.len(),
        counts_of(v).numberless_names == v.records().numberless_names.len(),
        counts_of(v).names == v.records().names.len(),
        counts_of(v).numberless_export_paths == v.records().numberless_export_paths.len(),
        pool_valid(false, v.strings().ansi_strings),
        pool_valid(true, v.strings().wide_strings),
        counts_of(v).ansi_strings == v.strings().ansi_strings.len(),
        counts_of(v).wide_strings == v.strings().wide_strings.len(),
        counts_of(v).ansi_string_bytes == pool_bytes(false, v.strings().ansi_strings),
        counts_of(v).wide_string_bytes == pool_bytes(true, v.strings().wide_strings),
        all_valid::<FNumberlessPair>(v.tagged().numberless_pairs),
        all_valid::<FNumberedPair>(v.tagged().pairs),
        counts_of(v).numberless_pairs == v.tagged().numberless_pairs.len(),
        counts_of(v).pairs == v.tagged().pairs.len(),
        StoreDataView::of_parts(v.records(), v.strings(), v.tagged()) == v,
{
    reveal(store_valid);
    assert(v.export_paths =~= Seq::<FAssetRegistryExportPath>::empty());
    lemma_prefix_grows(false, v.ansi_strings, 0, v.ansi_strings.len() as int);
    lemma_prefix_grows(true, v.wide_strings, 0, v.wide_strings.len() as int);
}

/// The content of a store comes back from its bytes, whatever stands where
/// the constant that ends the store is due.
pub proof fn lemma_body_roundtrip(v: StoreDataView, rest: Seq<u8>)
    requires
        StoreData::valid(v),
    ensures
        decoded_body(encoded_body(v) + rest) == Ok::<(StoreDataView, int), DecodeError>(
            (v, encoded_body(v).len() as int),
        ),
{
    let c = counts_of(v);
    let e0 = u32_le_bytes(START_MAGIC);
    let e1 = StoreCounts::encoded(c);
    let e2 = encoded_records(v.records());
    let e3 = encoded_strings(v.strings());
    let e4 = encoded_pairs(v.tagged());
    let t4 = e4 + rest;
    let t3 = e3 + t4;
    let t2 = e2 + t3;
    let t1 = e1 + t2;
    let whole = e0 + t1;
    lemma_concat_6(e0, e1, e2, e3, e4, rest);
    lemma_parts_ready(v);
    lemma_u32_roundtrip(START_MAGIC, t1);
    StoreCounts::lemma_roundtrip(c, t2);
    lemma_records_roundtrip(v.records(), c, t3);
    lemma_strings_roundtrip(v.strings(), c, t4);
    lemma_pairs_roundtrip(v.tagged(), c, rest);
    let n1 = e1.len() as int;
    let n2 = e2.len() as int;
    let n3 = e3.len() as int;
    assert(whole.skip(4) == t1) by {
        lemma_skip_prefix(e0, t1);
    }
    assert(whole.skip(4 + n1) == t2) by {
        lemma_skip_prefix(e1, t2);
        lemma_skip_more(whole, 4, n1);
    }
    assert(whole.skip(4 + n1 + n2) == t3) by {
        lemma_skip_prefix(e2, t3);
        lemma_skip_more(whole, 4 + n1, n2);
    }
    assert(whole.skip(4 + n1 + n2 + n3) == t4) by {
        lemma_skip_prefix(e3, t4);
        lemma_skip_more(whole, 4 + n1 + n2, n3);
    }
}

/// The constant that ends a store decides last: where the bytes of a store
/// are followed by four bytes that are not that constant, the content is
/// decoded in full and the store is then rejected for its framing.
pub proof fn lemma_end_magic_decides(v: StoreDataView, trailer: Seq<u8>, rest: Seq<u8>)
    requires
        StoreData::valid(v),
        trailer.len() == 4,
        le_u32(trailer) != END_MAGIC,
    ensures
        StoreData::encoded(v) == encoded_body(v) + u32_le_bytes(END_MAGIC),
        decoded_body(encoded_body(v) + trailer + rest) == Ok::<(StoreDataView, int), DecodeError>(
            (v, encoded_body(v).len() as int),
        ),
        StoreData::decoded(encoded_body(v) + trailer + rest) == Err::<
            (StoreDataView, int),
            DecodeError,
        >(DecodeError::MalformedMagic { expected: END_MAGIC, found: le_u32(trailer) }),
{
    let body = encoded_body(v);
    let tail = trailer + rest;
    lemma_concat_3(body, trailer, rest);
    lemma_body_roundtrip(v, tail);
    lemma_skip_prefix(body, tail);
    assert(le_u32(tail) == le_u32(trailer)) by {
        assert(tail[0] == trailer[0] && tail[1] == trailer[1] && tail[2] == trailer[2] && tail[3]
            == trailer[3]);
    }
}

impl Framed for StoreCounts {
    proof fn lemma_truncated(v: StoreCounts, k: int) {
        lemma_array_truncated::<u32>(v.words(), k);
    }
}

/// A cut through the arrays that stand before the pools and what follows
/// them: where the cut falls within the arrays, they are rejected for
/// having ended too soon; where it falls behind them, they are decoded and
/// what is left is what followed them, cut.
pub proof fn lemma_records_cut(v: StoreRecords, c: StoreCounts, tail: Seq<u8>, k: int)
    requires
        all_valid::<FText>(v.text_data),
        c.text_data == v.text_data.len(),
        c.numberless_names == v.numberless_names.len(),
        c.names == v.names.len(),
        c.numberless_export_paths == v.numberless_export_paths.len(),
        0 <= k <= encoded_records(v).len() + tail.len(),
    ensures
        k < encoded_records(v).len() ==> decoded_records((encoded_records(v) + tail).take(k), c)
            == Err::<(StoreRecords, int), DecodeError>(DecodeError::UnexpectedEnd),
        k >= encoded_records(v).len() ==> decoded_records(
            (encoded_records(v) + tail).take(k),
            c,
        ) == Ok::<(StoreRecords, int), DecodeError>((v, encoded_records(v).len() as int)) && (
        encoded_records(v) + tail).take(k).skip(encoded_records(v).len() as int) == tail.take(
            k - encoded_records(v).len(),
        ),
{
    let whole = encoded_records(v) + tail;
    let cut = whole.take(k);
    if k >= encoded_records(v).len() {
        let left = tail.take(k - encoded_records(v).len());
        assert(cut =~= encoded_records(v) + left);
        lemma_records_roundtrip(v, c, left);
        lemma_skip_prefix(encoded_records(v), left);
    } else {
        reveal(encoded_records);
        reveal(decoded_records);
        let e1 = encoded_array::<FText>(v.text_data);
        let e2 = encoded_array::<FName>(v.numberless_names);
        let e3 = encoded_array::<FName>(v.names);
        let e4 = encoded_array::<FNumberlessExportPath>(v.numberless_export_paths);
        let t3 = e3 + e4;
        let t2 = e2 + t3;
        let inner = e1 + t2;
        let n1 = e1.len() as int;
        let n2 = e2.len() as int;
        let n3 = e3.len() as int;
        assert(encoded_records(v) == inner) by {
            lemma_concat_3(e1 + e2, e3, e4);
            lemma_concat_3(e1, e2, t3);
        }
        assert(cut =~= inner.take(k));
        lemma_array_cut::<FText>(v.text_data, t2, k);
        if k >= n1 {
            lemma_array_cut::<FName>(v.numberless_names, t3, k - n1);
            if k >= n1 + n2 {
                assert(cut.skip(n1 + n2) == t3.take(k - n1 - n2)) by {
                    lemma_skip_more(cut, n1, n2);
                }
                lemma_array_cut::<FName>(v.names, e4, k - n1 - n2);
                if k >= n1 + n2 + n3 {
                    assert(cut.skip(n1 + n2 + n3) == e4.take(k - n1 - n2 - n3)) by {
                        lemma_skip_more(cut, n1 + n2, n3);
                    }
                    lemma_array_truncated::<FNumberlessExportPath>(
                        v.numberless_export_paths,
                        k - n1 - n2 - n3,
                    );
                }
            }
        }
    }
}

/// A cut through the two pools of strings and what follows them: see
/// [`lemma_records_cut`].
pub proof fn lemma_strings_cut(v: StoreStrings, c: StoreCounts, tail: Seq<u8>, k: int)
    requires
        pool_valid(false, v.ansi_strings),
        pool_valid(true, v.wide_strings),
        c.ansi_strings == v.ansi_strings.len(),
        c.wide_strings == v.wide_strings.len(),
        c.ansi_string_bytes == pool_bytes(false, v.ansi_strings),
        c.wide_string_bytes == pool_bytes(true, v.wide_strings),
        0 <= k <= encoded_strings(v).len() + tail.len(),
    ensures
        k < encoded_strings(v).len() ==> decoded_strings((encoded_strings(v) + tail).take(k), c)
            == Err::<(StoreStrings, int), DecodeError>(DecodeError::UnexpectedEnd),
        k >= encoded_strings(v).len() ==> decoded_strings(
            (encoded_strings(v) + tail).take(k),
            c,
        ) == Ok::<(StoreStrings, int), DecodeError>((v, encoded_strings(v).len() as int)) && (
        encoded_strings(v) + tail).take(k).skip(encoded_strings(v).len() as int) == tail.take(
            k - encoded_strings(v).len(),
        ),
{
    let whole = encoded_strings(v) + tail;
    let cut = whole.take(k);
    if k >= encoded_strings(v).len() {
        let left = tail.take(k - encoded_strings(v).len());
        assert(cut =~= encoded_strings(v) + left);
        lemma_strings_roundtrip(v, c, left);
        lemma_skip_prefix(encoded_strings(v), left);
    } else {
        reveal(encoded_strings);
        reveal(decoded_strings);
        let e1 = encoded_array::<u32>(pool_offsets(false, v.ansi_strings));
        let e2 = encoded_array::<u32>(pool_offsets(true, v.wide_strings));
        let e3 = pool_blob(false, v.ansi_strings);
        let e4 = pool_blob(true, v.wide_strings);
        let t3 = e3 + e4;
        let t2 = e2 + t3;
        let inner = e1 + t2;
        let n1 = e1.len() as int;
        let n2 = e2.len() as int;
        let n3 = e3.len() as int;
        assert(encoded_strings(v) == inner) by {
            lemma_concat_3(e1 + e2, e3, e4);
            lemma_concat_3(e1, e2, t3);
        }
        assert(cut =~= inner.take(k));
        lemma_array_cut::<u32>(pool_offsets(false, v.ansi_strings), t2, k);
        if k >= n1 {
            lemma_array_cut::<u32>(pool_offsets(true, v.wide_strings), t3, k - n1);
            if k >= n1 + n2 {
                assert(cut.skip(n1 + n2) == t3.take(k - n1 - n2)) by {
                    lemma_skip_more(cut, n1, n2);
                }
                lemma_blob_cut(false, v.ansi_strings, e4, k - n1 - n2);
                if k >= n1 + n2 + n3 {
                    assert(cut.skip(n1 + n2 + n3) == e4.take(k - n1 - n2 - n3)) by {
                        lemma_skip_more(cut, n1 + n2, n3);
                    }
                    lemma_blob_cut(true, v.wide_strings, Seq::empty(), k - n1 - n2 - n3);
                    assert(e4 + Seq::<u8>::empty() =~= e4);
                }
            }
        }
    }
}

/// A cut through the two arrays of pairs and what follows them: see
/// [`lemma_records_cut`].
pub proof fn lemma_pairs_cut(v: StorePairs, c: StoreCounts, tail: Seq<u8>, k: int)
    requires
        all_valid::<FNumberlessPair>(v.numberless_pairs),
        all_valid::<FNumberedPair>(v.pairs),
        c.numberless_pairs == v.numberless_pairs.len(),
        c.pairs == v.pairs.len(),
        0 <= k <= encoded_pairs(v).len() + tail.len(),
    ensures
        k < encoded_pairs(v).len() ==> decoded_pairs((encoded_pairs(v) + tail).take(k), c) == Err::<
            (StorePairs, int),
            DecodeError,
        >(DecodeError::UnexpectedEnd),
        k >= encoded_pairs(v).len() ==> decoded_pairs((encoded_pairs(v) + tail).take(k), c) == Ok::<
            (StorePairs, int),
            DecodeError,
        >((v, encoded_pairs(v).len() as int)) && (encoded_pairs(v) + tail).take(k).skip(
            encoded_pairs(v).len() as int,
        ) == tail.take(k - encoded_pairs(v).len()),
{
    let whole = encoded_pairs(v) + tail;
    let cut = whole.take(k);
    if k >= encoded_pairs(v).len() {
        let left = tail.take(k - encoded_pairs(v).len());
        assert(cut =~= encoded_pairs(v) + left);
        lemma_pairs_roundtrip(v, c, left);
        lemma_skip_prefix(encoded_pairs(v), left);
    } else {
        reveal(encoded_pairs);
        reveal(decoded_pairs);
        let e1 = encoded_array::<FNumberlessPair>(v.numberless_pairs);
        let e2 = encoded_array::<FNumberedPair>(v.pairs);
        assert(cut =~= (e1 + e2).take(k));
        lemma_array_cut::<FNumberlessPair>(v.numberless_pairs, e2, k);
        if k >= e1.len() {
            lemma_array_truncated::<FNumberedPair>(v.pairs, k - e1.len());
        }
    }
}

/// The content of a store, cut short, is rejected for having ended too soon.
pub proof fn lemma_body_truncated(v: StoreDataView, k: int)
    requires
        StoreData::valid(v),
        0 <= k < encoded_body(v).len(),
    ensures
        decoded_body(encoded_body(v).take(k)) == Err::<(StoreDataView, int), DecodeError>(
            DecodeError::UnexpectedEnd,
        ),
{
    let c = counts_of(v);
    let e0 = u32_le_bytes(START_MAGIC);
    let e1 = StoreCounts::encoded(c);
    let e2 = encoded_records(v.records());
    let e3 = encoded_strings(v.strings());
    let e4 = encoded_pairs(v.tagged());
    let t3 = e3 + e4;
    let t2 = e2 + t3;
    let t1 = e1 + t2;
    let whole = e0 + t1;
    let cut = whole.take(k);
    let n1 = e1.len() as int;
    let n2 = e2.len() as int;
    let n3 = e3.len() as int;
    lemma_concat_5(e0, e1, e2, e3, e4);
    lemma_parts_ready(v);
    lemma_cut::<u32>(START_MAGIC, t1, k);
    if k >= 4 {
        lemma_cut::<StoreCounts>(c, t2, k - 4);
        if k >= 4 + n1 {
            assert(cut.skip(4 + n1) == t2.take(k - 4 - n1)) by {
                lemma_skip_more(cut, 4, n1);
            }
            lemma_records_cut(v.records(), c, t3, k - 4 - n1);
            if k >= 4 + n1 + n2 {
                assert(cut.skip(4 + n1 + n2) == t3.take(k - 4 - n1 - n2)) by {
                    lemma_skip_more(cut, 4 + n1, n2);
                }
                lemma_strings_cut(v.strings(), c, e4, k - 4 - n1 - n2);
                if k >= 4 + n1 + n2 + n3 {
                    assert(cut.skip(4 + n1 + n2 + n3) == e4.take(k - 4 - n1 - n2 - n3)) by {
                        lemma_skip_more(cut, 4 + n1 + n2, n3);
                    }
                    lemma_pairs_cut(v.tagged(), c, Seq::empty(), k - 4 - n1 - n2 - n3);
                    assert(e4 + Seq::<u8>::empty() =~= e4);
                }
            }
        }
    }
}

impl Framed for StoreData {
    proof fn lemma_truncated(v: StoreDataView, k: int) {
        let body = encoded_body(v);
        let end = u32_le_bytes(END_MAGIC);
        let cut = (body + end).take(k);
        if k < body.len() {
            assert(cut =~= body.take(k));
            lemma_body_truncated(v, k);
        } else {
            let left = end.take(k - body.len());
            assert(cut =~= body + left);
            lemma_body_roundtrip(v, left);
            lemma_skip_prefix(body, left);
        }
    }
}

} // verus!

//! A pool of strings: one blob that holds the strings one after the other,
//! each with its terminator, and a table that gives for each string the
//! offset in bytes at which it starts. The length of a string is not stored:
//! it is what lies between its offset and the next one, or the end of the
//! blob.

use vstd::prelude::*;
use vstd::slice::slice_subrange;
use itertools::Itertools;
use crate::error::DecodeError;
use crate::read::Decoded;
use crate::text::{
    decoded_text,
    encoded_text,
    lemma_encoded_text_len,
    lemma_text_roundtrip,
    read_text,
    text_units,
    unit_count,
    write_text,
};
use crate::wire::write_u32;
use crate::write::{encoded_array, views};

verus! {

/// The largest number of bytes that one string of a pool may take up.
pub const MAX_POOLED_STRING_BYTES: u32 = 0x7FFF_FFFF;

/// The number of bytes that `text` takes up in a pool of the given width,
/// terminator included.
pub open spec fn pooled_len(wide: bool, text: Seq<char>) -> int {
    if wide {
        2 * unit_count(wide, text)
    } else {
        unit_count(wide, text)
    }
}

/// The number of bytes that the first `i` strings take up.
pub open spec fn pool_prefix(wide: bool, strings: Seq<Seq<char>>, i: int) -> int
    decreases i,
{
    if i <= 0 {
        0
    } else {
        pool_prefix(wide, strings, i - 1) + pooled_len(wide, strings[i - 1])
    }
}

/// The number of bytes that the pool of `strings` takes up.
pub open spec fn pool_bytes(wide: bool, strings: Seq<Seq<char>>) -> int {
    pool_prefix(wide, strings, strings.len() as int)
}

/// The table of offsets of the pool of `strings`.
pub open spec fn pool_offsets(wide: bool, strings: Seq<Seq<char>>) -> Seq<u32> {
    Seq::new(strings.len(), |i: int| pool_prefix(wide, strings, i) as u32)
}

/// The bytes of the first `i` strings, each with its terminator.
pub open spec fn pool_blob_upto(wide: bool, strings: Seq<Seq<char>>, i: int) -> Seq<u8>
    decreases i,
{
    if i <= 0 {
        Seq::empty()
    } else {
        pool_blob_upto(wide, strings, i - 1) + encoded_text(wide, strings[i - 1])
    }
}

/// The blob of the pool of `strings`.
pub open spec fn pool_blob(wide: bool, strings: Seq<Seq<char>>) -> Seq<u8> {
    pool_blob_upto(wide, strings, strings.len() as int)
}

/// Whether `strings` can be kept in a pool: their number and the bytes they
/// take up fit 32 bits, and none is over the bound for one string.
pub open spec fn pool_valid(wide: bool, strings: Seq<Seq<char>>) -> bool {
    &&& strings.len() <= u32::MAX
    &&& pool_bytes(wide, strings) <= u32::MAX
    &&& forall|i: int|
        0 <= i < strings.len() ==> pooled_len(wide, #[trigger] strings[i])
            <= MAX_POOLED_STRING_BYTES
}

/// Where the string at `i` ends: at the next offset, or at the end of the
/// blob for the last string.
pub open spec fn range_end(offsets: Seq<u32>, total: u32, i: int) -> u32 {
    if i + 1 < offsets.len() {
        offsets[i + 1]
    } else {
        total
    }
}

/// The string that lies in `blob` from `start` up to `end`.
///
/// The range has to end after its start, or it is rejected with the start as
/// `expected` and the end as `found`; it has to end within the blob; it is
/// at most [`MAX_POOLED_STRING_BYTES`] long, and of even length in a wide
/// pool. Its last unit is the terminator, which is no part of the text.
pub open spec fn decoded_pooled(blob: Seq<u8>, total: u32, start: u32, end: u32, wide: bool) -> Result<
    Seq<char>,
    DecodeError,
> {
    if start >= end {
        Err(DecodeError::InconsistentLength { expected: start, found: end })
    } else if end > total {
        Err(DecodeError::OversizedField { limit: total, found: end })
    } else if end - start > MAX_POOLED_STRING_BYTES {
        Err(
            DecodeError::OversizedField {
                limit: MAX_POOLED_STRING_BYTES,
                found: (end - start) as u32,
            },
        )
    } else if wide && (end - start) % 2 != 0 {
        Err(DecodeError::InvalidEncoding)
    } else {
        match decoded_text(
            blob.subrange(start as int, end as int),
            wide,
            (if wide {
                (end - start) / 2
            } else {
                end - start
            }) as nat,
        ) {
            Ok((text, _)) => Ok(text),
            Err(e) => Err(e),
        }
    }
}

/// `items` put before what was decoded after them.
pub open spec fn joined<V>(items: Seq<V>, tail: Result<Seq<V>, DecodeError>) -> Result<
    Seq<V>,
    DecodeError,
> {
    match tail {
        Ok(more) => Ok(items + more),
        Err(e) => Err(e),
    }
}

/// The strings of a pool from the one at `i` on. The first string that is
/// rejected rejects the pool.
pub open spec fn decoded_pool(
    blob: Seq<u8>,
    offsets: Seq<u32>,
    total: u32,
    wide: bool,
    i: int,
) -> Result<Seq<Seq<char>>, DecodeError>
    decreases offsets.len() - i,
{
    if i < 0 || i >= offsets.len() {
        Ok(Seq::empty())
    } else {
        match decoded_pooled(blob, total, offsets[i], range_end(offsets, total, i), wide) {
            Ok(text) => joined(seq![text], decoded_pool(blob, offsets, total, wide, i + 1)),
            Err(e) => Err(e),
        }
    }
}

/// What the front of `bytes` stands for as one blob of `total` bytes and the
/// strings that `offsets` mark in it.
pub open spec fn decoded_blob(bytes: Seq<u8>, offsets: Seq<u32>, total: u32, wide: bool) -> Decoded<
    Seq<Seq<char>>,
> {
    if bytes.len() < total {
        Err(DecodeError::UnexpectedEnd)
    } else {
        match decoded_pool(bytes.subrange(0, total as int), offsets, total, wide, 0) {
            Ok(strings) => Ok((strings, total as int)),
            Err(e) => Err(e),
        }
    }
}

/// `itertools::Itertools::tuple_windows`, over the items of `bounds` and for
/// windows of two: every item but the last, paired with the item after it,
/// in order. There is no pair where `bounds` holds fewer than two items.
#[verifier::external_body]
fn adjacent_pairs(bounds: &[u32]) -> (pairs: Vec<(u32, u32)>)
    ensures
        pairs@.len() == if bounds@.len() == 0 {
            0
        } else {
            bounds@.len() - 1
        },
        forall|i: int| 0 <= i < pairs@.len() ==> pairs@[i] == (bounds@[i], bounds@[i + 1]),
{
    bounds.iter().copied().tuple_windows().collect()
}

/// Takes the strings of a pool out of its blob. Each range is validated
/// before its bytes are copied.
fn read_pool(blob: &[u8], offsets: Vec<u32>, total: u32, wide: bool) -> (r: Result<
    Vec<String>,
    DecodeError,
>)
    requires
        blob@.len() == total,
    ensures
        match r {
            Ok(strings) => decoded_pool(blob@, offsets@, total, wide, 0) == Ok::<
                Seq<Seq<char>>,
                DecodeError,
            >(views(strings@)),
            Err(e) => decoded_pool(blob@, offsets@, total, wide, 0) == Err::<
                Seq<Seq<char>>,
                DecodeError,
            >(e),
        },
{
    let ghost given = offsets@;
    let mut bounds = offsets;
    bounds.push(total);
    let windows = adjacent_pairs(bounds.as_slice());
    let mut strings: Vec<String> = Vec::new();
    let mut i: usize = 0;
    proof {
        let whole = decoded_pool(blob@, given, total, wide, 0);
        assert(joined(views(strings@), whole) == whole) by {
            if let Ok(more) = whole {
                assert(views(strings@) + more =~= more);
            }
        }
    }
    while i < windows.len()
        invariant
            i <= windows@.len(),
            windows@.len() == given.len(),
            given == offsets@,
            blob@.len() == total,
            bounds@ == given.push(total),
            forall|j: int| 0 <= j < windows@.len() ==> windows@[j] == (bounds@[j], bounds@[j + 1]),
            decoded_pool(blob@, given, total, wide, 0) == joined(
                views(strings@),
                decoded_pool(blob@, given, total, wide, i as int),
            ),
        decreases windows@.len() - i,
    {
        let (start, end) = windows[i];
        let ghost before = views(strings@);
        proof {
            assert(windows@[i as int] == (bounds@[i as int], bounds@[i + 1]));
            assert(start == given[i as int]);
            assert(end == range_end(given, total, i as int));
        }
        if start >= end {
            return Err(DecodeError::InconsistentLength { expected: start, found: end });
        }
        if end > total {
            return Err(DecodeError::OversizedField { limit: total, found: end });
        }
        let len = end - start;
        if len > MAX_POOLED_STRING_BYTES {
            return Err(
                DecodeError::OversizedField { limit: MAX_POOLED_STRING_BYTES, found: len },
            );
        }
        if wide && len % 2 != 0 {
            return Err(DecodeError::InvalidEncoding);
        }
        let count = if wide {
            len / 2
        } else {
            len
        };
        let range = slice_subrange(blob, start as usize, end as usize);
        match read_text(range, wide, count) {
            Ok((text, _)) => {
                proof {
                    let tail = decoded_pool(blob@, given, total, wide, i + 1);
                    assert(views(strings@.push(text)) =~= before + seq![text@]);
                    assert(joined(before, joined(seq![text@], tail)) == joined(
                        before + seq![text@],
                        tail,
                    )) by {
                        if let Ok(more) = tail {
                            assert(before + (seq![text@] + more) =~= (before + seq![text@]) + more);
                        }
                    }
                }
                strings.push(text);
                i = i + 1;
            },
            Err(e) => {
                return Err(e);
            },
        }
    }
    proof {
        assert(views(strings@) + Seq::<Seq<char>>::empty() =~= views(strings@));
    }
    Ok(strings)
}

/// Decodes one blob of `total` bytes and takes out of it the strings that
/// `offsets` mark.
pub fn read_blob(buf: &[u8], offsets: Vec<u32>, total: u32, wide: bool) -> (r: Result<
    (Vec<String>, usize),
    DecodeError,
>)
    ensures
        match r {
            Ok((strings, used)) => decoded_blob(buf@, offsets@, total, wide) == Ok::<
                (Seq<Seq<char>>, int),
                DecodeError,
            >((views(strings@), used as int)) && used <= buf@.len(),
            Err(e) => decoded_blob(buf@, offsets@, total, wide) == Err::<
                (Seq<Seq<char>>, int),
                DecodeError,
            >(e),
        },
{
    if buf.len() < total as usize {
        return Err(DecodeError::UnexpectedEnd);
    }
    let blob = slice_subrange(buf, 0, total as usize);
    match read_pool(blob, offsets, total, wide) {
        Ok(strings) => Ok((strings, total as usize)),
        Err(e) => Err(e),
    }
}

/// Tests whether `strings` can be kept in a pool of the given width.
pub fn pool_is_valid(wide: bool, strings: &Vec<String>) -> (ok: bool)
    ensures
        ok == pool_valid(wide, views(strings@)),
{
    let ghost texts = views(strings@);
    if strings.len() > u32::MAX as usize {
        return false;
    }
    let mut total: u64 = 0;
    let mut i: usize = 0;
    while i < strings.len()
        invariant
            i <= strings@.len(),
            strings@.len() <= u32::MAX,
            texts == views(strings@),
            total == pool_prefix(wide, texts, i as int),
            total <= u32::MAX,
            forall|j: int|
                0 <= j < i ==> pooled_len(wide, #[trigger] texts[j]) <= MAX_POOLED_STRING_BYTES,
        decreases strings@.len() - i,
    {
        let units = text_units(wide, strings[i].as_str());
        proof {
            assert(texts[i as int] == strings@[i as int]@);
            lemma_prefix_grows(wide, texts, i + 1, texts.len() as int);
        }
        let limit: usize = if wide {
            (MAX_POOLED_STRING_BYTES / 2) as usize
        } else {
            MAX_POOLED_STRING_BYTES as usize
        };
        if units >= limit {
            assert(pooled_len(wide, texts[i as int]) > MAX_POOLED_STRING_BYTES);
            return false;
        }
        let len: u64 = if wide {
            2 * (units as u64 + 1)
        } else {
            units as u64 + 1
        };
        total = total + len;
        if total > u32::MAX as u64 {
            return false;
        }
        i = i + 1;
    }
    true
}

/// The number of bytes that the pool of `strings` takes up.
pub fn pool_total(wide: bool, strings: &Vec<String>) -> (total: u32)
    requires
        pool_valid(wide, views(strings@)),
    ensures
        total == pool_bytes(wide, views(strings@)),
{
    let ghost texts = views(strings@);
    let mut total: u32 = 0;
    let mut i: usize = 0;
    while i < strings.len()
        invariant
            i <= strings@.len(),
            texts == views(strings@),
            pool_valid(wide, texts),
            total == pool_prefix(wide, texts, i as int),
        decreases strings@.len() - i,
    {
        let units = text_units(wide, strings[i].as_str());
        proof {
            assert(texts[i as int] == strings@[i as int]@);
            lemma_prefix_grows(wide, texts, i + 1, texts.len() as int);
        }
        let len: u32 = if wide {
            2 * (units as u32 + 1)
        } else {
            units as u32 + 1
        };
        total = total + len;
        i = i + 1;
    }
    total
}

/// Appends the table of offsets of the pool of `strings` to `out`.
pub fn write_pool_offsets(out: &mut Vec<u8>, wide: bool, strings: &Vec<String>)
    requires
        pool_valid(wide, views(strings@)),
    ensures
        final(out)@ == old(out)@ + encoded_array::<u32>(pool_offsets(wide, views(strings@))),
{
    let ghost texts = views(strings@);
    let ghost table = pool_offsets(wide, texts);
    let mut offset: u32 = 0;
    let mut i: usize = 0;
    while i < strings.len()
        invariant
            i <= strings@.len(),
            texts == views(strings@),
            table == pool_offsets(wide, texts),
            pool_valid(wide, texts),
            offset == pool_prefix(wide, texts, i as int),
            out@ == old(out)@ + encoded_array::<u32>(table.take(i as int)),
        decreases strings@.len() - i,
    {
        let units = text_units(wide, strings[i].as_str());
        proof {
            assert(texts[i as int] == strings@[i as int]@);
            lemma_prefix_grows(wide, texts, i + 1, texts.len() as int);
            assert(table.take(i + 1).drop_last() =~= table.take(i as int));
            assert(table.take(i + 1).last() == offset);
        }
        write_u32(out, offset);
        let len: u32 = if wide {
            2 * (units as u32 + 1)
        } else {
            units as u32 + 1
        };
        offset = offset + len;
        i = i + 1;
    }
    proof {
        assert(table.take(i as int) =~= table);
    }
}

/// Appends the blob of the pool of `strings` to `out`.
pub fn write_pool_blob(out: &mut Vec<u8>, wide: bool, strings: &Vec<String>)
    ensures
        final(out)@ == old(out)@ + pool_blob(wide, views(strings@)),
{
    let ghost texts = views(strings@);
    let mut i: usize = 0;
    assert(out@ =~= old(out)@ + pool_blob_upto(wide, texts, 0));
    while i < strings.len()
        invariant
            i <= strings@.len(),
            texts == views(strings@),
            out@ == old(out)@ + pool_blob_upto(wide, texts, i as int),
        decreases strings@.len() - i,
    {
        let ghost before = pool_blob_upto(wide, texts, i as int);
        let ghost here = encoded_text(wide, texts[i as int]);
        proof {
            assert(texts[i as int] == strings@[i as int]@);
            assert((old(out)@ + before) + here =~= old(out)@ + (before + here));
        }
        write_text(out, wide, strings[i].as_str());
        i = i + 1;
    }
}

/// The bytes before a string are no more than those before a later one.
pub proof fn lemma_prefix_grows(wide: bool, strings: Seq<Seq<char>>, i: int, j: int)
    requires
        0 <= i <= j,
    ensures
        0 <= pool_prefix(wide, strings, i) <= pool_prefix(wide, strings, j),
    decreases j,
{
    if i < j {
        lemma_prefix_grows(wide, strings, i, j - 1);
    } else if i > 0 {
        lemma_prefix_grows(wide, strings, i - 1, i - 1);
    }
}

/// The first strings of a pool take up as many bytes as their offsets say.
pub proof fn lemma_blob_len(wide: bool, strings: Seq<Seq<char>>, i: int)
    requires
        0 <= i,
    ensures
        pool_blob_upto(wide, strings, i).len() == pool_prefix(wide, strings, i),
    decreases i,
{
    if i > 0 {
        lemma_blob_len(wide, strings, i - 1);
        lemma_encoded_text_len(wide, strings[i - 1]);
    }
}

/// The string at `i` lies in the blob between its offset and the next one.
pub proof fn lemma_blob_slice(wide: bool, strings: Seq<Seq<char>>, i: int, k: int)
    requires
        0 <= i < k,
    ensures
        pool_blob_upto(wide, strings, k).subrange(
            pool_prefix(wide, strings, i),
            pool_prefix(wide, strings, i + 1),
        ) == encoded_text(wide, strings[i]),
    decreases k,
{
    let from = pool_prefix(wide, strings, i);
    let to = pool_prefix(wide, strings, i + 1);
    lemma_prefix_grows(wide, strings, i, i + 1);
    lemma_blob_len(wide, strings, i);
    lemma_blob_len(wide, strings, i + 1);
    if k == i + 1 {
        assert(pool_blob_upto(wide, strings, k).subrange(from, to) =~= encoded_text(
            wide,
            strings[i],
        ));
    } else {
        lemma_blob_slice(wide, strings, i, k - 1);
        lemma_prefix_grows(wide, strings, i + 1, k - 1);
        lemma_blob_len(wide, strings, k - 1);
        assert(pool_blob_upto(wide, strings, k).subrange(from, to) =~= pool_blob_upto(
            wide,
            strings,
            k - 1,
        ).subrange(from, to));
    }
}

/// The string at `i` comes back from the blob and the two offsets around it.
pub proof fn lemma_pooled_roundtrip(wide: bool, strings: Seq<Seq<char>>, i: int)
    requires
        pool_valid(wide, strings),
        0 <= i < strings.len(),
    ensures
        pool_offsets(wide, strings)[i] == pool_prefix(wide, strings, i),
        range_end(pool_offsets(wide, strings), pool_bytes(wide, strings) as u32, i) == pool_prefix(
            wide,
            strings,
            i + 1,
        ),
        decoded_pooled(
            pool_blob(wide, strings),
            pool_bytes(wide, strings) as u32,
            pool_prefix(wide, strings, i) as u32,
            pool_prefix(wide, strings, i + 1) as u32,
            wide,
        ) == Ok::<Seq<char>, DecodeError>(strings[i]),
{
    let n = strings.len() as int;
    let text = strings[i];
    let from = pool_prefix(wide, strings, i);
    let to = pool_prefix(wide, strings, i + 1);
    let blob = pool_blob(wide, strings);
    let piece = blob.subrange(from, to);
    lemma_prefix_grows(wide, strings, 0, i);
    lemma_prefix_grows(wide, strings, i, i + 1);
    lemma_prefix_grows(wide, strings, i + 1, n);
    lemma_blob_len(wide, strings, n);
    lemma_blob_slice(wide, strings, i, n);
    assert(pooled_len(wide, text) <= MAX_POOLED_STRING_BYTES);
    assert(to - from == pooled_len(wide, text));
    assert(piece == encoded_text(wide, text));
    lemma_text_roundtrip(wide, text, Seq::empty());
    assert(encoded_text(wide, text) + Seq::<u8>::empty() =~= encoded_text(wide, text));
    let count = (if wide {
        (to - from) / 2
    } else {
        to - from
    }) as nat;
    assert(count == unit_count(wide, text));
    assert(decoded_text(piece, wide, count) == Ok::<(Seq<char>, int), DecodeError>(
        (text, encoded_text(wide, text).len() as int),
    ));
}

/// The strings of a pool from the one at `i` on come back from its blob and
/// its table of offsets.
pub proof fn lemma_pool_roundtrip_from(wide: bool, strings: Seq<Seq<char>>, i: int)
    requires
        pool_valid(wide, strings),
        0 <= i <= strings.len(),
    ensures
        decoded_pool(
            pool_blob(wide, strings),
            pool_offsets(wide, strings),
            pool_bytes(wide, strings) as u32,
            wide,
            i,
        ) == Ok::<Seq<Seq<char>>, DecodeError>(strings.skip(i)),
    decreases strings.len() - i,
{
    if i >= strings.len() {
        assert(strings.skip(i) =~= Seq::<Seq<char>>::empty());
    } else {
        lemma_pooled_roundtrip(wide, strings, i);
        lemma_pool_roundtrip_from(wide, strings, i + 1);
        assert(seq![strings[i]] + strings.skip(i + 1) =~= strings.skip(i));
    }
}

/// The strings of a pool come back from its blob and its table of offsets.
pub proof fn lemma_blob_roundtrip(wide: bool, strings: Seq<Seq<char>>, rest: Seq<u8>)
    requires
        pool_valid(wide, strings),
    ensures
        decoded_blob(
            pool_blob(wide, strings) + rest,
            pool_offsets(wide, strings),
            pool_bytes(wide, strings) as u32,
            wide,
        ) == Ok::<(Seq<Seq<char>>, int), DecodeError>(
            (strings, pool_blob(wide, strings).len() as int),
        ),
{
    let blob = pool_blob(wide, strings);
    lemma_blob_len(wide, strings, strings.len() as int);
    lemma_prefix_grows(wide, strings, 0, strings.len() as int);
    lemma_pool_roundtrip_from(wide, strings, 0);
    assert((blob + rest).subrange(0, blob.len() as int) =~= blob);
    assert(strings.skip(0) =~= strings);
}

/// The strings of a pool are only decoded where every range ends after its
/// start and within the blob: offsets that do not grow are rejected, and so
/// is an offset over the total.
pub proof fn lemma_pool_ranges(blob: Seq<u8>, offsets: Seq<u32>, total: u32, wide: bool, i: int)
    requires
        0 <= i,
    ensures
        decoded_pool(blob, offsets, total, wide, i) is Ok ==> forall|j: int|
            i <= j < offsets.len() ==> offsets[j] < #[trigger] range_end(offsets, total, j)
                <= total,
    decreases offsets.len() - i,
{
    if i < offsets.len() {
        lemma_pool_ranges(blob, offsets, total, wide, i + 1);
    }
}

/// A cut through the blob of a pool and what follows it: where the cut falls
/// within the blob, the pool is rejected for having ended too soon; where it
/// falls behind the blob, the strings are decoded and what is left is what
/// followed the blob, cut.
pub proof fn lemma_blob_cut(wide: bool, strings: Seq<Seq<char>>, tail: Seq<u8>, k: int)
    requires
        pool_valid(wide, strings),
        0 <= k <= pool_blob(wide, strings).len() + tail.len(),
    ensures
        k < pool_blob(wide, strings).len() ==> decoded_blob(
            (pool_blob(wide, strings) + tail).take(k),
            pool_offsets(wide, strings),
            pool_bytes(wide, strings) as u32,
            wide,
        ) == Err::<(Seq<Seq<char>>, int), DecodeError>(DecodeError::UnexpectedEnd),
        k >= pool_blob(wide, strings).len() ==> decoded_blob(
            (pool_blob(wide, strings) + tail).take(k),
            pool_offsets(wide, strings),
            pool_bytes(wide, strings) as u32,
            wide,
        ) == Ok::<(Seq<Seq<char>>, int), DecodeError>(
            (strings, pool_blob(wide, strings).len() as int),
        ) && (pool_blob(wide, strings) + tail).take(k).skip(pool_blob(wide, strings).len() as int)
            == tail.take(k - pool_blob(wide, strings).len()),
{
    let blob = pool_blob(wide, strings);
    lemma_blob_len(wide, strings, strings.len() as int);
    lemma_prefix_grows(wide, strings, 0, strings.len() as int);
    if k >= blob.len() {
        let left = tail.take(k - blob.len());
        assert((blob + tail).take(k) =~= blob + left);
        lemma_blob_roundtrip(wide, strings, left);
        assert((blob + left).skip(blob.len() as int) =~= left);
    }
}

} // verus!

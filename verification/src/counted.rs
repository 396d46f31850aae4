//! An array with the number of its items put before it.

use vstd::prelude::*;
use vstd::slice::slice_subrange;
use crate::error::DecodeError;
use crate::read::{
    decoded_array,
    lemma_array_cut,
    lemma_array_roundtrip,
    lemma_concat_3,
    lemma_cut,
    lemma_skip_more,
    lemma_skip_prefix,
    read_array,
    Decoded,
    Framed,
    Readable,
};
use crate::wire::{decoded_u32, lemma_u32_roundtrip, read_u32, u32_le_bytes, write_u32};
use crate::write::{all_valid, array_is_valid, encoded_array, views, write_array, Writable};

verus! {

/// Whether `items` can be encoded with their number before them: the number
/// fits 32 bits, and every item can be encoded.
pub open spec fn counted_valid<T: Writable>(items: Seq<T::V>) -> bool {
    items.len() <= u32::MAX && all_valid::<T>(items)
}

/// The number of `items`, and then their encodings.
pub open spec fn encoded_counted<T: Writable>(items: Seq<T::V>) -> Seq<u8> {
    u32_le_bytes(items.len() as u32) + encoded_array::<T>(items)
}

/// What the front of `bytes` stands for as a number and that many records.
pub open spec fn decoded_counted<T: Readable>(bytes: Seq<u8>) -> Decoded<Seq<T::V>> {
    match decoded_u32(bytes) {
        Ok((count, _)) => match decoded_array::<T>(bytes.skip(4), count as nat) {
            Ok((items, used)) => Ok((items, 4 + used)),
            Err(e) => Err(e),
        },
        Err(e) => Err(e),
    }
}

/// Tests whether `array` can be encoded with the number of its items before
/// it.
pub fn counted_is_valid<T: Writable>(array: &[T]) -> (ok: bool)
    ensures
        ok == counted_valid::<T>(views(array@)),
{
    array.len() <= u32::MAX as usize && array_is_valid::<T>(array)
}

/// Appends the number of items of `array` and then the items to `out`.
pub fn write_counted<T: Writable>(out: &mut Vec<u8>, array: &[T])
    requires
        counted_valid::<T>(views(array@)),
    ensures
        final(out)@ == old(out)@ + encoded_counted::<T>(views(array@)),
{
    write_u32(out, array.len() as u32);
    write_array::<T>(out, array);
    proof {
        lemma_concat_3(
            old(out)@,
            u32_le_bytes(array@.len() as u32),
            encoded_array::<T>(views(array@)),
        );
    }
}

/// Decodes a number and that many records from the front of `buf`.
pub fn read_counted<T: Readable>(buf: &[u8]) -> (r: Result<(Vec<T>, usize), DecodeError>)
    ensures
        match r {
            Ok((items, used)) => decoded_counted::<T>(buf@) == Ok::<(Seq<T::V>, int), DecodeError>(
                (views(items@), used as int),
            ) && used <= buf@.len(),
            Err(e) => decoded_counted::<T>(buf@) == Err::<(Seq<T::V>, int), DecodeError>(e),
        },
{
    let (count, _) = read_u32(buf)?;
    let (items, used) = read_array::<T>(count, slice_subrange(buf, 4, buf.len()))?;
    Ok((items, 4 + used))
}

/// An array comes back from its number and its encoding, whatever follows.
pub proof fn lemma_counted_roundtrip<T: Readable>(items: Seq<T::V>, rest: Seq<u8>)
    requires
        counted_valid::<T>(items),
    ensures
        decoded_counted::<T>(encoded_counted::<T>(items) + rest) == Ok::<
            (Seq<T::V>, int),
            DecodeError,
        >((items, encoded_counted::<T>(items).len() as int)),
        (encoded_counted::<T>(items) + rest).skip(encoded_counted::<T>(items).len() as int) == rest,
{
    let head = u32_le_bytes(items.len() as u32);
    let tail = encoded_array::<T>(items) + rest;
    lemma_concat_3(head, encoded_array::<T>(items), rest);
    lemma_u32_roundtrip(items.len() as u32, tail);
    lemma_skip_prefix(head, tail);
    lemma_array_roundtrip::<T>(items, rest);
    lemma_skip_prefix(encoded_counted::<T>(items), rest);
}

/// A cut through a counted array and what follows it: where the cut falls
/// within the array, the array is rejected for having ended too soon; where
/// it falls behind the array, the array is decoded and what is left is what
/// followed it, cut.
pub proof fn lemma_counted_cut<T: Framed>(items: Seq<T::V>, tail: Seq<u8>, k: int)
    requires
        counted_valid::<T>(items),
        0 <= k <= encoded_counted::<T>(items).len() + tail.len(),
    ensures
        k < encoded_counted::<T>(items).len() ==> decoded_counted::<T>(
            (encoded_counted::<T>(items) + tail).take(k),
        ) == Err::<(Seq<T::V>, int), DecodeError>(DecodeError::UnexpectedEnd),
        k >= encoded_counted::<T>(items).len() ==> decoded_counted::<T>(
            (encoded_counted::<T>(items) + tail).take(k),
        ) == Ok::<(Seq<T::V>, int), DecodeError>(
            (items, encoded_counted::<T>(items).len() as int),
        ) && (encoded_counted::<T>(items) + tail).take(k).skip(
            encoded_counted::<T>(items).len() as int,
        ) == tail.take(k - encoded_counted::<T>(items).len()),
{
    let count = items.len() as u32;
    let head = u32_le_bytes(count);
    let body = encoded_array::<T>(items);
    let whole = encoded_counted::<T>(items) + tail;
    let cut = whole.take(k);
    lemma_concat_3(head, body, tail);
    lemma_cut::<u32>(count, body + tail, k);
    if k >= 4 {
        lemma_array_cut::<T>(items, tail, k - 4);
        if k - 4 >= body.len() {
            lemma_skip_more(cut, 4, body.len() as int);
        }
    }
}

/// The encoding of a counted array, cut short, is rejected for having ended
/// too soon.
pub proof fn lemma_counted_truncated<T: Framed>(items: Seq<T::V>, k: int)
    requires
        counted_valid::<T>(items),
        0 <= k < encoded_counted::<T>(items).len(),
    ensures
        decoded_counted::<T>(encoded_counted::<T>(items).take(k)) == Err::<
            (Seq<T::V>, int),
            DecodeError,
        >(DecodeError::UnexpectedEnd),
{
    lemma_counted_cut::<T>(items, Seq::empty(), k);
    assert(encoded_counted::<T>(items) + Seq::<u8>::empty() =~= encoded_counted::<T>(items));
}

} // verus!

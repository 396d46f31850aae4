//! What it means to decode a record, and arrays of records.

use vstd::prelude::*;
use vstd::slice::slice_subrange;
use crate::error::DecodeError;
use crate::write::{all_valid, encoded_array, lemma_encoded_array_front, views, Writable};

verus! {

/// What decoding yields: the value and the number of bytes it took up, or why
/// the input was rejected.
pub type Decoded<V> = Result<(V, int), DecodeError>;

/// Whether the outcome `r` of a decoder is the outcome `d` that the format
/// prescribes.
pub open spec fn agrees<T: View>(r: Result<(T, usize), DecodeError>, d: Decoded<T::V>) -> bool {
    match r {
        Ok((value, used)) => d == Ok::<(T::V, int), DecodeError>((value@, used as int)),
        Err(e) => d == Err::<(T::V, int), DecodeError>(e),
    }
}

/// A record that can be decoded from the front of a sequence of bytes.
pub trait Readable: Writable {
    /// What the bytes at the front of `bytes` stand for.
    spec fn decoded(bytes: Seq<u8>) -> Decoded<Self::V>;

    /// Decodes one record from the front of `buf`.
    fn read(buf: &[u8]) -> (r: Result<(Self, usize), DecodeError>)
        ensures
            agrees(r, Self::decoded(buf@)),
            r matches Ok((_, used)) ==> used <= buf@.len(),
    ;

    /// Decoding the encoding of a record gives the record back, whatever
    /// follows the encoding.
    proof fn lemma_roundtrip(v: Self::V, rest: Seq<u8>)
        requires
            Self::valid(v),
        ensures
            Self::decoded(Self::encoded(v) + rest) == Ok::<(Self::V, int), DecodeError>(
                (v, Self::encoded(v).len() as int),
            ),
    ;
}

/// What is left of `head + tail` after `head` is `tail`.
pub proof fn lemma_skip_prefix(head: Seq<u8>, tail: Seq<u8>)
    ensures
        (head + tail).skip(head.len() as int) == tail,
{
    assert((head + tail).skip(head.len() as int) =~= tail);
}

/// Skipping `a` bytes and then `b` more is skipping `a + b` bytes.
pub proof fn lemma_skip_more(s: Seq<u8>, a: int, b: int)
    requires
        0 <= a,
        0 <= b,
        a + b <= s.len(),
    ensures
        s.skip(a).skip(b) == s.skip(a + b),
{
    assert(s.skip(a).skip(b) =~= s.skip(a + b));
}

/// Parts put together from the left are the first part and then the others.
pub proof fn lemma_concat_3(a: Seq<u8>, b: Seq<u8>, rest: Seq<u8>)
    ensures
        (a + b) + rest == a + (b + rest),
{
    assert((a + b) + rest =~= a + (b + rest));
}

/// Parts put together from the left are the first part and then the others.
pub proof fn lemma_concat_5(a: Seq<u8>, b: Seq<u8>, c: Seq<u8>, d: Seq<u8>, rest: Seq<u8>)
    ensures
        (((a + b) + c) + d) + rest == a + (b + (c + (d + rest))),
{
    assert((((a + b) + c) + d) + rest =~= a + (b + (c + (d + rest))));
}

/// Parts put together from the left are the first part and then the others.
pub proof fn lemma_concat_6(
    a: Seq<u8>,
    b: Seq<u8>,
    c: Seq<u8>,
    d: Seq<u8>,
    e: Seq<u8>,
    rest: Seq<u8>,
)
    ensures
        ((((a + b) + c) + d) + e) + rest == a + (b + (c + (d + (e + rest)))),
{
    assert(((((a + b) + c) + d) + e) + rest =~= a + (b + (c + (d + (e + rest)))));
}

/// One step of a round trip: a record's encoding is decoded as the record,
/// and what followed the encoding is what is left to decode.
pub proof fn lemma_roundtrip_then<T: Readable>(v: T::V, tail: Seq<u8>)
    requires
        T::valid(v),
    ensures
        T::decoded(T::encoded(v) + tail) == Ok::<(T::V, int), DecodeError>(
            (v, T::encoded(v).len() as int),
        ),
        (T::encoded(v) + tail).skip(T::encoded(v).len() as int) == tail,
{
    T::lemma_roundtrip(v, tail);
    assert((T::encoded(v) + tail).skip(T::encoded(v).len() as int) =~= tail);
}

/// An outcome with `items` put before what it decoded and `used` added to
/// what it took up.
pub open spec fn after<V>(items: Seq<V>, used: int, tail: Decoded<Seq<V>>) -> Decoded<Seq<V>> {
    match tail {
        Ok((more, n)) => Ok((items + more, used + n)),
        Err(e) => Err(e),
    }
}

/// What the bytes at the front of `bytes` stand for when read as `count`
/// records, one after the other. The first record that is rejected rejects
/// the array.
pub open spec fn decoded_array<T: Readable>(bytes: Seq<u8>, count: nat) -> Decoded<Seq<T::V>>
    decreases count,
{
    if count == 0 {
        Ok((Seq::empty(), 0))
    } else {
        match T::decoded(bytes) {
            Ok((first, used)) => after(
                seq![first],
                used,
                decoded_array::<T>(bytes.skip(used), (count - 1) as nat),
            ),
            Err(e) => Err(e),
        }
    }
}

/// Decodes `length` records from the front of `buf`.
pub fn read_array<T: Readable>(length: u32, buf: &[u8]) -> (r: Result<(Vec<T>, usize), DecodeError>)
    ensures
        match r {
            Ok((items, used)) => decoded_array::<T>(buf@, length as nat) == Ok::<
                (Seq<T::V>, int),
                DecodeError,
            >((views(items@), used as int)) && used <= buf@.len(),
            Err(e) => decoded_array::<T>(buf@, length as nat) == Err::<
                (Seq<T::V>, int),
                DecodeError,
            >(e),
        },
{
    let mut items: Vec<T> = Vec::new();
    let mut pos: usize = 0;
    let mut i: u32 = 0;
    proof {
        assert(buf@.skip(0) =~= buf@);
        let whole = decoded_array::<T>(buf@, length as nat);
        assert(after(views(items@), 0, whole) == whole) by {
            if let Ok((more, n)) = whole {
                assert(views(items@) + more =~= more);
            }
        }
    }
    while i < length
        invariant
            i <= length,
            pos <= buf@.len(),
            items@.len() == i,
            decoded_array::<T>(buf@, length as nat) == after(
                views(items@),
                pos as int,
                decoded_array::<T>(buf@.skip(pos as int), (length - i) as nat),
            ),
        decreases length - i,
    {
        let rest = slice_subrange(buf, pos, buf.len());
        let ghost before = views(items@);
        match T::read(rest) {
            Ok((item, used)) => {
                proof {
                    let tail = decoded_array::<T>(
                        buf@.skip(pos as int).skip(used as int),
                        (length - i - 1) as nat,
                    );
                    assert(buf@.skip(pos as int).skip(used as int) =~= buf@.skip(pos + used));
                    assert(views(items@.push(item)) =~= before + seq![item@]);
                    assert(after(before, pos as int, after(seq![item@], used as int, tail))
                        == after(before + seq![item@], pos + used, tail)) by {
                        if let Ok((more, n)) = tail {
                            assert(before + (seq![item@] + more) =~= (before + seq![item@]) + more);
                        }
                    }
                }
                items.push(item);
                pos = pos + used;
                i = i + 1;
            },
            Err(e) => {
                return Err(e);
            },
        }
    }
    proof {
        assert(views(items@) + Seq::<T::V>::empty() =~= views(items@));
    }
    Ok((items, pos))
}

/// Decoding the encoding of an array gives the array back, whatever follows
/// the encoding.
pub proof fn lemma_array_roundtrip<T: Readable>(items: Seq<T::V>, rest: Seq<u8>)
    requires
        all_valid::<T>(items),
    ensures
        decoded_array::<T>(encoded_array::<T>(items) + rest, items.len()) == Ok::<
            (Seq<T::V>, int),
            DecodeError,
        >((items, encoded_array::<T>(items).len() as int)),
    decreases items.len(),
{
    if items.len() == 0 {
        assert(items =~= Seq::<T::V>::empty());
    } else {
        let first = items[0];
        let others = items.drop_first();
        let head = T::encoded(first);
        let tail = encoded_array::<T>(others);
        lemma_encoded_array_front::<T>(items);
        assert(T::valid(first));
        assert(all_valid::<T>(others)) by {
            assert forall|i: int| 0 <= i < others.len() implies T::valid(#[trigger] others[i]) by {
                assert(others[i] == items[i + 1]);
            }
        }
        assert((head + tail) + rest =~= head + (tail + rest));
        T::lemma_roundtrip(first, tail + rest);
        assert((head + (tail + rest)).skip(head.len() as int) =~= tail + rest);
        lemma_array_roundtrip::<T>(others, rest);
        assert(seq![first] + others =~= items);
    }
}

/// An array that was decoded holds as many items as were asked for.
pub proof fn lemma_decoded_array_len<T: Readable>(bytes: Seq<u8>, count: nat)
    ensures
        decoded_array::<T>(bytes, count) matches Ok((items, _)) ==> items.len() == count,
    decreases count,
{
    if count > 0 {
        if let Ok((first, used)) = T::decoded(bytes) {
            lemma_decoded_array_len::<T>(bytes.skip(used), (count - 1) as nat);
        }
    }
}

/// A record that is only taken for whole: no proper prefix of its encoding
/// is a record.
pub trait Framed: Readable {
    /// The encoding of a record, cut short, is rejected for having ended
    /// too soon.
    proof fn lemma_truncated(v: Self::V, k: int)
        requires
            Self::valid(v),
            0 <= k < Self::encoded(v).len(),
        ensures
            Self::decoded(Self::encoded(v).take(k)) == Err::<(Self::V, int), DecodeError>(
                DecodeError::UnexpectedEnd,
            ),
    ;
}

/// A cut through a record and what follows it: where the cut falls within
/// the record, the record is rejected for having ended too soon; where it
/// falls behind the record, the record is decoded and what is left is what
/// followed it, cut.
pub proof fn lemma_cut<T: Framed>(v: T::V, tail: Seq<u8>, k: int)
    requires
        T::valid(v),
        0 <= k <= T::encoded(v).len() + tail.len(),
    ensures
        k < T::encoded(v).len() ==> T::decoded((T::encoded(v) + tail).take(k)) == Err::<
            (T::V, int),
            DecodeError,
        >(DecodeError::UnexpectedEnd),
        k >= T::encoded(v).len() ==> T::decoded((T::encoded(v) + tail).take(k)) == Ok::<
            (T::V, int),
            DecodeError,
        >((v, T::encoded(v).len() as int)) && (T::encoded(v) + tail).take(k).skip(
            T::encoded(v).len() as int,
        ) == tail.take(k - T::encoded(v).len()),
{
    let head = T::encoded(v);
    if k < head.len() {
        assert((head + tail).take(k) =~= head.take(k));
        T::lemma_truncated(v, k);
    } else {
        let left = tail.take(k - head.len());
        assert((head + tail).take(k) =~= head + left);
        lemma_roundtrip_then::<T>(v, left);
    }
}

/// The encoding of an array, cut short, is rejected for having ended too
/// soon.
pub proof fn lemma_array_truncated<T: Framed>(items: Seq<T::V>, k: int)
    requires
        all_valid::<T>(items),
        0 <= k < encoded_array::<T>(items).len(),
    ensures
        decoded_array::<T>(encoded_array::<T>(items).take(k), items.len()) == Err::<
            (Seq<T::V>, int),
            DecodeError,
        >(DecodeError::UnexpectedEnd),
    decreases items.len(),
{
    if items.len() == 0 {
        assert(encoded_array::<T>(items) =~= Seq::<u8>::empty());
    } else {
        let first = items[0];
        let others = items.drop_first();
        let head = T::encoded(first);
        let tail = encoded_array::<T>(others);
        lemma_encoded_array_front::<T>(items);
        assert(T::valid(first));
        assert(all_valid::<T>(others)) by {
            assert forall|i: int| 0 <= i < others.len() implies T::valid(#[trigger] others[i]) by {
                assert(others[i] == items[i + 1]);
            }
        }
        lemma_cut::<T>(first, tail, k);
        if k >= head.len() {
            lemma_array_truncated::<T>(others, k - head.len());
        }
    }
}

/// A cut through an array and what follows it: see [`lemma_cut`].
pub proof fn lemma_array_cut<T: Framed>(items: Seq<T::V>, tail: Seq<u8>, k: int)
    requires
        all_valid::<T>(items),
        0 <= k <= encoded_array::<T>(items).len() + tail.len(),
    ensures
        k < encoded_array::<T>(items).len() ==> decoded_array::<T>(
            (encoded_array::<T>(items) + tail).take(k),
            items.len(),
        ) == Err::<(Seq<T::V>, int), DecodeError>(DecodeError::UnexpectedEnd),
        k >= encoded_array::<T>(items).len() ==> decoded_array::<T>(
            (encoded_array::<T>(items) + tail).take(k),
            items.len(),
        ) == Ok::<(Seq<T::V>, int), DecodeError>((items, encoded_array::<T>(items).len() as int))
            && (encoded_array::<T>(items) + tail).take(k).skip(
            encoded_array::<T>(items).len() as int,
        ) == tail.take(k - encoded_array::<T>(items).len()),
{
    let head = encoded_array::<T>(items);
    if k < head.len() {
        assert((head + tail).take(k) =~= head.take(k));
        lemma_array_truncated::<T>(items, k);
    } else {
        let left = tail.take(k - head.len());
        assert((head + tail).take(k) =~= head + left);
        lemma_array_roundtrip::<T>(items, left);
        lemma_skip_prefix(head, left);
    }
}

} // verus!

//! What it means to encode a record, and arrays of records.

use vstd::prelude::*;

verus! {

/// A record that has an encoding.
pub trait Writable: View + Sized {
    /// Whether the format can represent `v`.
    spec fn valid(v: Self::V) -> bool;

    /// The bytes that stand for `v`.
    spec fn encoded(v: Self::V) -> Seq<u8>;

    /// Tests at run time whether the format can represent this record.
    fn is_valid(&self) -> (ok: bool)
        ensures
            ok == Self::valid(self@),
    ;

    /// Appends the encoding of this record to `out`.
    fn write(&self, out: &mut Vec<u8>)
        requires
            Self::valid(self@),
        ensures
            final(out)@ == old(out)@ + Self::encoded(self@),
    ;
}

/// The views of the items of `items`, in order.
pub open spec fn views<T: View>(items: Seq<T>) -> Seq<T::V> {
    Seq::new(items.len(), |i: int| items[i]@)
}

/// Whether the format can represent every item of `items`.
pub open spec fn all_valid<T: Writable>(items: Seq<T::V>) -> bool {
    forall|i: int| 0 <= i < items.len() ==> T::valid(#[trigger] items[i])
}

/// The encodings of the items of `items`, one after the other.
pub open spec fn encoded_array<T: Writable>(items: Seq<T::V>) -> Seq<u8>
    decreases items.len(),
{
    if items.len() == 0 {
        Seq::empty()
    } else {
        encoded_array::<T>(items.drop_last()) + T::encoded(items.last())
    }
}

/// An array's encoding starts with that of its first item.
pub proof fn lemma_encoded_array_front<T: Writable>(items: Seq<T::V>)
    requires
        items.len() > 0,
    ensures
        encoded_array::<T>(items) == T::encoded(items[0]) + encoded_array::<T>(
            items.drop_first(),
        ),
    decreases items.len(),
{
    if items.len() == 1 {
        assert(items.drop_last() =~= Seq::<T::V>::empty());
        assert(items.drop_first() =~= Seq::<T::V>::empty());
        assert(encoded_array::<T>(items.drop_last()) =~= Seq::<u8>::empty());
        assert(encoded_array::<T>(items.drop_first()) =~= Seq::<u8>::empty());
        assert(encoded_array::<T>(items) =~= T::encoded(items[0]));
    } else {
        lemma_encoded_array_front::<T>(items.drop_last());
        assert(items.drop_last().drop_first() =~= items.drop_first().drop_last());
        assert(items.drop_last()[0] == items[0]);
        assert(items.drop_first().last() == items.last());
        assert(encoded_array::<T>(items) =~= T::encoded(items[0]) + encoded_array::<T>(
            items.drop_first(),
        ));
    }
}

/// Tests whether the format can represent every item of `array`.
pub fn array_is_valid<T: Writable>(array: &[T]) -> (ok: bool)
    ensures
        ok == all_valid::<T>(views(array@)),
{
    let mut i: usize = 0;
    while i < array.len()
        invariant
            i <= array@.len(),
            forall|j: int| 0 <= j < i ==> T::valid(#[trigger] views(array@)[j]),
        decreases array@.len() - i,
    {
        if !array[i].is_valid() {
            assert(!T::valid(views(array@)[i as int]));
            return false;
        }
        i += 1;
    }
    true
}

/// Appends the encoding of each item of `array` to `out`, in order.
pub fn write_array<T: Writable>(out: &mut Vec<u8>, array: &[T])
    requires
        all_valid::<T>(views(array@)),
    ensures
        final(out)@ == old(out)@ + encoded_array::<T>(views(array@)),
{
    let ghost items = views(array@);
    let mut i: usize = 0;
    while i < array.len()
        invariant
            i <= array@.len(),
            items == views(array@),
            all_valid::<T>(items),
            out@ == old(out)@ + encoded_array::<T>(items.take(i as int)),
        decreases array@.len() - i,
    {
        proof {
            assert(T::valid(items[i as int]));
            assert(items.take(i + 1).drop_last() =~= items.take(i as int));
            assert(items.take(i + 1).last() == items[i as int]);
        }
        array[i].write(out);
        i += 1;
    }
    proof {
        assert(items.take(i as int) =~= items);
    }
}

} // verus!

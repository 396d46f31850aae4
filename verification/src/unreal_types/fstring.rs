//! The string whose length field says, by its sign, how wide its units are.

use vstd::prelude::*;
use vstd::slice::{slice_subrange, slice_to_vec};
use vstd::utf8::{decode_utf8, encode_utf8, is_ascii_chars, valid_utf8};
use crate::error::DecodeError;
use crate::read::{
    decoded_array,
    lemma_array_roundtrip,
    lemma_array_truncated,
    lemma_decoded_array_len,
    read_array,
    Decoded,
    Framed,
    Readable,
};
use crate::text::{
    is_pure_ansi,
    lemma_encoded_units_len,
    string_from_utf16,
    string_from_utf8,
    utf16_decoded,
    utf16_encoded,
    utf16_units,
};
use crate::wire::{
    append,
    decoded_i32,
    i32_le_bytes,
    le_i32,
    lemma_i32_roundtrip,
    read_i32,
    write_i32,
};
use crate::write::{encoded_array, views, write_array, Writable};

verus! {

/// The largest number of units that a string may declare: sixteen mebi.
pub const MAX_STRING_SERIALIZATION_SIZE: u32 = 0x100_0000;

/// A string as it lies on the wire.
///
/// The wide form ends in a zero unit, which its length counts. The narrow
/// form is the bytes that its length counts, with no terminator of its own:
/// [`FString::from`] puts one there.
#[derive(Debug, PartialEq, Eq, Clone)]
pub enum FString {
    Utf16(Vec<u16>),
    Ansi(Vec<u8>),
}

/// What a string holds: its units.
pub enum FStringView {
    Utf16(Seq<u16>),
    Ansi(Seq<u8>),
}

impl View for FString {
    type V = FStringView;

    open spec fn view(&self) -> FStringView {
        match self {
            FString::Utf16(units) => FStringView::Utf16(units@),
            FString::Ansi(bytes) => FStringView::Ansi(bytes@),
        }
    }
}

impl FStringView {
    /// The number of units.
    pub open spec fn len(self) -> nat {
        match self {
            FStringView::Utf16(units) => units.len(),
            FStringView::Ansi(bytes) => bytes.len(),
        }
    }

    /// The signed length that stands before the units on the wire: positive
    /// for the narrow form, negative for the wide one.
    pub open spec fn signed_len(self) -> int {
        match self {
            FStringView::Utf16(units) => -(units.len() as int),
            FStringView::Ansi(bytes) => bytes.len() as int,
        }
    }

    /// The text that the units before the last one hold.
    pub open spec fn text(self) -> Result<Seq<char>, DecodeError> {
        match self {
            FStringView::Utf16(units) => if units.len() == 0 {
                Err(DecodeError::InconsistentLength { expected: 1, found: 0 })
            } else {
                match utf16_decoded(units.drop_last()) {
                    Some(text) => Ok(text),
                    None => Err(DecodeError::InvalidEncoding),
                }
            },
            FStringView::Ansi(bytes) => if bytes.len() == 0 {
                Err(DecodeError::InconsistentLength { expected: 1, found: 0 })
            } else if !valid_utf8(bytes.drop_last()) {
                Err(DecodeError::InvalidEncoding)
            } else {
                Ok(decode_utf8(bytes.drop_last()))
            },
        }
    }
}

/// The string that holds `text`: narrow if every code point of `text` is
/// below U+0080, wide as a whole otherwise, and with a terminator either way.
pub open spec fn string_of_text(text: Seq<char>) -> FStringView {
    if is_ascii_chars(text) {
        FStringView::Ansi(encode_utf8(text) + seq![0u8])
    } else {
        FStringView::Utf16(utf16_encoded(text) + seq![0u16])
    }
}

impl FString {
    /// The number of units.
    pub fn len(&self) -> (n: usize)
        ensures
            n == self@.len(),
    {
        match self {
            FString::Utf16(units) => units.len(),
            FString::Ansi(bytes) => bytes.len(),
        }
    }

    /// The string that holds `value`.
    pub fn from(value: &str) -> (s: FString)
        ensures
            s@ == string_of_text(value@),
    {
        if is_pure_ansi(value) {
            let mut bytes = slice_to_vec(value.as_bytes());
            bytes.push(0);
            assert(bytes@ =~= encode_utf8(value@) + seq![0u8]);
            FString::Ansi(bytes)
        } else {
            let mut units = utf16_units(value);
            units.push(0);
            assert(units@ =~= utf16_encoded(value@) + seq![0u16]);
            FString::Utf16(units)
        }
    }

    /// The text of the string, its last unit left out. There is none where
    /// the string is empty or its units are not valid in their encoding.
    pub fn to_string(&self) -> (r: Result<String, DecodeError>)
        ensures
            match r {
                Ok(s) => self@.text() == Ok::<Seq<char>, DecodeError>(s@),
                Err(e) => self@.text() == Err::<Seq<char>, DecodeError>(e),
            },
    {
        if self.len() == 0 {
            return Err(DecodeError::InconsistentLength { expected: 1, found: 0 });
        }
        match self {
            FString::Utf16(units) => {
                let body = slice_subrange(units.as_slice(), 0, units.len() - 1);
                assert(body@ =~= units@.drop_last());
                match string_from_utf16(body) {
                    Some(s) => Ok(s),
                    None => Err(DecodeError::InvalidEncoding),
                }
            },
            FString::Ansi(bytes) => {
                let body = slice_to_vec(slice_subrange(bytes.as_slice(), 0, bytes.len() - 1));
                assert(body@ =~= bytes@.drop_last());
                match string_from_utf8(body) {
                    Some(s) => Ok(s),
                    None => Err(DecodeError::InvalidEncoding),
                }
            },
        }
    }
}

/// What follows a negative length `-count`: that many 16-bit units, the last
/// of them zero, the others valid UTF-16.
pub open spec fn decoded_wide(bytes: Seq<u8>, count: nat) -> Decoded<FStringView> {
    match decoded_array::<u16>(bytes, count) {
        Ok((units, used)) => if units.last() != 0 {
            Err(DecodeError::InvalidTermination { unit: units.last() })
        } else if utf16_decoded(units.drop_last()) is None {
            Err(DecodeError::InvalidEncoding)
        } else {
            Ok((FStringView::Utf16(units), used))
        },
        Err(e) => Err(e),
    }
}

/// What follows a positive length `count`: that many bytes, as they are.
pub open spec fn decoded_narrow(bytes: Seq<u8>, count: nat) -> Decoded<FStringView> {
    if bytes.len() < count {
        Err(DecodeError::UnexpectedEnd)
    } else {
        Ok((FStringView::Ansi(bytes.subrange(0, count as int)), count as int))
    }
}

/// The outcome `inner` with four bytes more taken up.
pub open spec fn after_length(inner: Decoded<FStringView>) -> Decoded<FStringView> {
    match inner {
        Ok((v, used)) => Ok((v, 4 + used)),
        Err(e) => Err(e),
    }
}

impl Writable for FString {
    /// A string holds at least one unit and no more than the bound; the wide
    /// form ends in a zero unit and holds valid UTF-16 before it.
    open spec fn valid(v: FStringView) -> bool {
        match v {
            FStringView::Utf16(units) => 1 <= units.len() <= MAX_STRING_SERIALIZATION_SIZE
                && units.last() == 0 && utf16_decoded(units.drop_last()) is Some,
            FStringView::Ansi(bytes) => 1 <= bytes.len() <= MAX_STRING_SERIALIZATION_SIZE,
        }
    }

    open spec fn encoded(v: FStringView) -> Seq<u8> {
        match v {
            FStringView::Utf16(units) => i32_le_bytes((-(units.len() as int)) as i32)
                + encoded_array::<u16>(units),
            FStringView::Ansi(bytes) => i32_le_bytes(bytes.len() as i32) + bytes,
        }
    }

    fn is_valid(&self) -> (ok: bool) {
        match self {
            FString::Utf16(units) => {
                let n = units.len();
                if n < 1 || n > MAX_STRING_SERIALIZATION_SIZE as usize || units[n - 1] != 0 {
                    return false;
                }
                let body = slice_subrange(units.as_slice(), 0, n - 1);
                assert(body@ =~= units@.drop_last());
                string_from_utf16(body).is_some()
            },
            FString::Ansi(bytes) => {
                let n = bytes.len();
                1 <= n && n <= MAX_STRING_SERIALIZATION_SIZE as usize
            },
        }
    }

    fn write(&self, out: &mut Vec<u8>) {
        match self {
            FString::Utf16(units) => {
                write_i32(out, -(units.len() as i32));
                assert(views(units@) =~= units@);
                write_array::<u16>(out, units.as_slice());
            },
            FString::Ansi(bytes) => {
                write_i32(out, bytes.len() as i32);
                append(out, bytes.as_slice());
            },
        }
    }
}

impl Readable for FString {
    /// A length of zero is rejected, and so is one that cannot be negated or
    /// that is over the bound, before any unit is looked at.
    open spec fn decoded(bytes: Seq<u8>) -> Decoded<FStringView> {
        match decoded_i32(bytes) {
            Ok((n, _)) => if n == 0 {
                Err(DecodeError::InconsistentLength { expected: 1, found: 0 })
            } else if n == i32::MIN {
                Err(
                    DecodeError::OversizedField {
                        limit: MAX_STRING_SERIALIZATION_SIZE,
                        found: 0x8000_0000,
                    },
                )
            } else if n < 0 {
                if -n > MAX_STRING_SERIALIZATION_SIZE {
                    Err(
                        DecodeError::OversizedField {
                            limit: MAX_STRING_SERIALIZATION_SIZE,
                            found: (-n) as u32,
                        },
                    )
                } else {
                    after_length(decoded_wide(bytes.skip(4), (-n) as nat))
                }
            } else {
                if n > MAX_STRING_SERIALIZATION_SIZE {
                    Err(
                        DecodeError::OversizedField {
                            limit: MAX_STRING_SERIALIZATION_SIZE,
                            found: n as u32,
                        },
                    )
                } else {
                    after_length(decoded_narrow(bytes.skip(4), n as nat))
                }
            },
            Err(e) => Err(e),
        }
    }

    fn read(buf: &[u8]) -> (r: Result<(FString, usize), DecodeError>) {
        let (n, _) = read_i32(buf)?;
        if n == 0 {
            return Err(DecodeError::InconsistentLength { expected: 1, found: 0 });
        }
        if n == i32::MIN {
            return Err(
                DecodeError::OversizedField {
                    limit: MAX_STRING_SERIALIZATION_SIZE,
                    found: 0x8000_0000,
                },
            );
        }
        let rest = slice_subrange(buf, 4, buf.len());
        if n < 0 {
            let count: u32 = (-n) as u32;
            if count > MAX_STRING_SERIALIZATION_SIZE {
                return Err(
                    DecodeError::OversizedField {
                        limit: MAX_STRING_SERIALIZATION_SIZE,
                        found: count,
                    },
                );
            }
            let (units, used) = read_array::<u16>(count, rest)?;
            assert(views(units@) =~= units@);
            proof {
                lemma_decoded_array_len::<u16>(rest@, count as nat);
            }
            let last = units[units.len() - 1];
            if last != 0 {
                return Err(DecodeError::InvalidTermination { unit: last });
            }
            let body = slice_subrange(units.as_slice(), 0, units.len() - 1);
            assert(body@ =~= units@.drop_last());
            if string_from_utf16(body).is_none() {
                return Err(DecodeError::InvalidEncoding);
            }
            Ok((FString::Utf16(units), 4 + used))
        } else {
            let count: u32 = n as u32;
            if count > MAX_STRING_SERIALIZATION_SIZE {
                return Err(
                    DecodeError::OversizedField {
                        limit: MAX_STRING_SERIALIZATION_SIZE,
                        found: count,
                    },
                );
            }
            if rest.len() < count as usize {
                return Err(DecodeError::UnexpectedEnd);
            }
            let bytes = slice_to_vec(slice_subrange(rest, 0, count as usize));
            Ok((FString::Ansi(bytes), 4 + count as usize))
        }
    }

    proof fn lemma_roundtrip(v: FStringView, rest: Seq<u8>) {
        match v {
            FStringView::Utf16(units) => {
                let n = (-(units.len() as int)) as i32;
                let tail = encoded_array::<u16>(units) + rest;
                lemma_i32_roundtrip(n, tail);
                assert(Self::encoded(v) + rest =~= i32_le_bytes(n) + tail);
                assert((i32_le_bytes(n) + tail).skip(4) =~= tail);
                lemma_array_roundtrip::<u16>(units, rest);
            },
            FStringView::Ansi(bytes) => {
                let n = bytes.len() as i32;
                let tail = bytes + rest;
                lemma_i32_roundtrip(n, tail);
                assert(Self::encoded(v) + rest =~= i32_le_bytes(n) + tail);
                assert((i32_le_bytes(n) + tail).skip(4) =~= tail);
                assert(tail.subrange(0, bytes.len() as int) =~= bytes);
            },
        }
    }
}

/// The sign of the length tells the width: a text whose code points are all
/// below U+0080 is written with a positive length, its bytes and terminator;
/// any other text is written with a negative length that counts the UTF-16
/// units of the whole text and its terminator.
pub proof fn lemma_sign_tells_width(text: Seq<char>)
    requires
        FString::valid(string_of_text(text)),
    ensures
        is_ascii_chars(text) ==> string_of_text(text).signed_len() == text.len() + 1,
        !is_ascii_chars(text) ==> string_of_text(text).signed_len() == -(utf16_encoded(text).len()
            + 1),
        decoded_i32(FString::encoded(string_of_text(text))) == Ok::<(i32, int), DecodeError>(
            (string_of_text(text).signed_len() as i32, 4),
        ),
        FString::encoded(string_of_text(text)).len() == 4 + (if is_ascii_chars(text) {
            1int
        } else {
            2int
        }) * string_of_text(text).len(),
{
    let v = string_of_text(text);
    if is_ascii_chars(text) {
        vstd::utf8::is_ascii_chars_encode_utf8(text);
        let bytes = encode_utf8(text) + seq![0u8];
        lemma_i32_roundtrip(bytes.len() as i32, bytes);
    } else {
        let units = utf16_encoded(text) + seq![0u16];
        lemma_i32_roundtrip((-(units.len() as int)) as i32, encoded_array::<u16>(units));
        lemma_encoded_units_len(units);
    }
}

/// A length that cannot be negated is rejected, whatever follows it.
pub proof fn lemma_least_length_rejected(bytes: Seq<u8>)
    requires
        bytes.len() >= 4,
        le_i32(bytes) == i32::MIN,
    ensures
        FString::decoded(bytes) == Err::<(FStringView, int), DecodeError>(
            DecodeError::OversizedField { limit: MAX_STRING_SERIALIZATION_SIZE, found: 0x8000_0000 },
        ),
{
}

impl Framed for FString {
    proof fn lemma_truncated(v: FStringView, k: int) {
        let cut = Self::encoded(v).take(k);
        if k >= 4 {
            match v {
                FStringView::Utf16(units) => {
                    let n = (-(units.len() as int)) as i32;
                    let body = encoded_array::<u16>(units);
                    let left = body.take(k - 4);
                    assert(cut =~= i32_le_bytes(n) + left);
                    lemma_i32_roundtrip(n, left);
                    assert(cut.skip(4) =~= left);
                    lemma_array_truncated::<u16>(units, k - 4);
                },
                FStringView::Ansi(bytes) => {
                    let n = bytes.len() as i32;
                    let left = bytes.take(k - 4);
                    assert(cut =~= i32_le_bytes(n) + left);
                    lemma_i32_roundtrip(n, left);
                    assert(cut.skip(4) =~= left);
                },
            }
        }
    }
}

} // verus!
